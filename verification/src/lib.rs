//! The verified core of a low-resolution renderer for iced: the counter
//! program's state transitions, the per-frame preparation and render
//! plans of the renderer, and the decisions the compositor takes while it
//! sets up a graphics device and presents frames.

pub mod counter;
pub mod label;
pub mod frame;
pub mod compositor;
