[package]
name = "wgpu_voxels"
version = "0.1.0"
edition = "2021"
publish = false

[dependencies]
bytemuck = { version = "*", features = ["derive"] }
glam = "*"
png = "*"
pollster = "*"
wgpu = "*"
winit = "*"
