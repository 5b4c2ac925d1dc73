[package]
name = "rubik"
version = "0.1.0"
edition = "2021"
publish = false

[dependencies]
bytemuck = { version = "=1.25.2", features = ["derive"] }
env_logger = "=0.11.11"
glam = "0.30"
pollster = "=1.0.1"
wgpu = "=30.0.1"
winit = "=0.30.13"
