[package]
name = "stargaze"
version = "0.1.0"
edition = "2021"
publish = false

[dependencies]
anyhow = "1"
bytemuck = { version = "1", features = ["derive"] }
env_logger = "0.11"
font8x8 = "0.3"
glam = "*"
log = "0.4"
pollster = "*"
serde = { version = "1", features = ["derive"] }
serde-saphyr = "*"
wgpu = "30"
winit = "0.30"
