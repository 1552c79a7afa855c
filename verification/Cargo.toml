[package]
name = "devclock"
version = "0.1.0"
edition = "2021"
publish = false

[dependencies]
wgpu = "=28.0.0"
winit = "=0.30.13"
glyphon = "=0.10.0"
smol = "=2.0.2"
serde_json = "=1.0.154"
nalgebra = "=0.33.3"
image = { version = "=0.25.10", default-features = false }
