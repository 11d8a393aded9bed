[package]
name = "bevy_v4l2"
version = "0.1.0"
edition = "2021"
publish = false

[dependencies]
ash = "0.38"
calib-targets = "*"
crossbeam-channel = "0.5"
image = { version = "0.25", default-features = false }
libc = "0.2"
nalgebra = "0.34"
serde = { version = "1", features = ["derive"] }
serde_json = "1"
thiserror = "2"
tracing = "0.1"
v4l = "0.14"
vision-calibration-core = "*"
vision-calibration-pipeline = "*"
wgpu = { version = "28", default-features = false, features = ["vulkan", "wgsl"] }
zune-jpeg = "0.5"
