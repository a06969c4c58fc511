[package]
name = "iced_lowres"
version = "0.1.0"
edition = "2021"
publish = false

[dependencies]
iced = { version = "=0.13.1", default-features = false, features = ["wgpu", "advanced"] }
iced_wgpu = "=0.13.5"
log = "=0.4.35"
