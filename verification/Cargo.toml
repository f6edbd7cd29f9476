[package]
name = "gated_recorder"
version = "0.1.0"
edition = "2021"
publish = false

[dependencies]
byteorder = "1"
chrono = "0.4"
cpal = "0.8"
gl = "*"
glutin = "0.21"
winit = "0.19"
