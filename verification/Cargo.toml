[package]
name = "firework"
version = "0.1.0"
edition = "2021"
publish = false

[dependencies]
rand = "0.8"
femtovg = "0.3"
glutin = "0.28"
winit = "0.26"
