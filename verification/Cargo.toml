[package]
name = "ray_tracer"
version = "0.1.0"
edition = "2021"
publish = false

[dependencies]
bytemuck = { version = "1", features = ["derive"] }
glam = "0.30"
wgpu = "27"
winit = "0.30"
pollster = "0.4"
clap = { version = "4", features = ["derive"] }
env_logger = "0.11"
anyhow = "1"
egui = "0.33"
egui-wgpu = "0.33"
egui-winit = "0.33"
gltf = "1"
