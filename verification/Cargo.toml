[package]
name = "glcore"
version = "0.1.0"
edition = "2021"
publish = false

[dependencies]
gl = "0.14"
glutin = "0.31"
glutin-winit = "0.4"
winit = { version = "0.29", features = ["rwh_05"] }
raw-window-handle = "0.5"
eyre = "0.6"
