[package]
name = "gimp"
version = "0.1.0"
edition = "2021"
publish = false

[dependencies]
env_logger = "0.11"
image = { version = "0.25", default-features = false, features = ["png", "jpeg"] }
pollster = "0.3"
rfd = "0.15"
serde = { version = "1", features = ["derive"] }
serde_json = "1"
wgpu = "22"
winit = "0.30"
