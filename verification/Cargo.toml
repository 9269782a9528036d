[package]
name = "voxel_world"
version = "0.1.0"
edition = "2021"
publish = false

[dependencies]
anyhow = "1"
cgmath = "0.18"
env_logger = { version = "0.9", default-features = false }
image = { version = "0.24", default-features = false, features = ["jpeg"] }
pollster = "0.2"
wgpu = "0.14"
winit = { version = "0.27", default-features = false, features = ["x11"] }
