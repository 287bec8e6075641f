[package]
name = "falling_sand"
version = "0.1.0"
edition = "2021"
publish = false

[dependencies]
bit-vec = "0.6"
rand = "0.8"
pixels = "0.13"
winit = { version = "0.28", default-features = false, features = ["x11"] }
