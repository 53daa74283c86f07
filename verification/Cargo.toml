[package]
name = "reify"
version = "0.1.0"
edition = "2021"
publish = false

[dependencies]
ash = "=0.38.0"
gpu-allocator = { version = "0.27", default-features = false, features = ["vulkan"] }
log = "=0.4.34"
raw-window-handle = "=0.6.2"
