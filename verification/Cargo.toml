[package]
name = "obs-rs"
version = "0.1.0"
edition = "2021"
publish = false

[dependencies]
arc-swap = "=1.9.3"
ash = "=0.38.0"
eframe = { version = "=0.37.0", default-features = false, features = ["wgpu_no_default_features", "x11"] }
libc = "=0.2.191"
media-pp = "=0.4.1"
png = "=0.18.1"
tracing = "=0.1.44"
wgpu = { version = "=30.0.1", default-features = false, features = ["std", "parking_lot", "vulkan", "wgsl"] }
