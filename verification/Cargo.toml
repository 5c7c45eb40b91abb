[package]
name = "gpu_runtime"
version = "0.1.0"
edition = "2021"
publish = false

[dependencies]
walkdir = "2"
tempfile = "3"
num_cpus = "1"
serde = { version = "1", features = ["derive"] }
serde_json = "1"
wgpu = "*"
pollster = "*"
