[package]
name = "pixelloop"
version = "0.1.0"
edition = "2021"
publish = false

[dependencies]
anyhow = "=1.0.104"
image = "=0.25.10"
pixels = "=0.13.0"
winit = "=0.28.7"
