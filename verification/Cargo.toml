[package]
name = "seedroad"
version = "0.1.0"
edition = "2021"
publish = false

[dependencies]
bytemuck = { version = "1", features = ["derive"] }
cgmath = "0.18"
env_logger = "0.11"
log = "0.4"
pollster = "0.3"
rapier3d = "0.22"
wgpu = "22"
winit = "0.30"
