[package]
name = "scenegraph"
version = "0.1.0"
edition = "2021"
publish = false

[dependencies]
anyhow = "1"
bytemuck = { version = "1", features = ["derive"] }
cgmath = "*"
env_logger = "*"
futures = "0.3"
gltf = "*"
log = "0.4"
wgpu = "*"
