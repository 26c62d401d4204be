[package]
name = "tape-decode"
version = "0.1.0"
edition = "2021"
publish = false

[dependencies]
anyhow = "1"
blake3 = "1"
cudarc = { version = "*", default-features = false, features = ["std", "driver", "nvrtc", "cufft", "dynamic-loading", "cuda-12080"] }
num-traits = "0.2"
realfft = "3"
rustfft = "6"
sci-rs = "*"
serde = { version = "1", features = ["derive"] }
serde_json = "1"
tracing = "0.1"
