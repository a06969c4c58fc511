# iced_lowres

A low-resolution renderer for the iced GUI toolkit, with a small counter
program that uses it.

- `src/` is the verified library (Verus):
  - `counter.rs`: the counter program's messages and state transition;
  - `label.rs`: the decimal label the counter shows;
  - `frame.rs`: the preparation plan and the render plan of a frame, and the
    proofs that render passes are well nested and that quad layers are
    numbered as they were prepared;
  - `compositor.rs`: the decisions taken while setting up a device and
    presenting a frame (backend selection, adapter power preference, surface
    format and alpha mode, the order of device requests, error reporting).
- `app/` is the program: iced's widgets, the wgpu calls and the glue that
  carries out the library's plans.
- `tests/` exercises the library on concrete values.
