[package]
name = "tinyui"
version = "0.1.0"
edition = "2021"
publish = false

[dependencies]
winit = "0.28"
pixels = "0.13"
notify = "6"
