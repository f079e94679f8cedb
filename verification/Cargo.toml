[package]
name = "rein"
version = "0.1.0"
edition = "2021"
publish = false

[dependencies]
anyhow = "1"
bytemuck = { version = "1", features = ["derive"] }
glam = "*"
hecs = "*"
pollster = "*"
thiserror = "2"
tracing = "*"
urdf-rs = "*"
wgpu = "*"
winit = "*"
