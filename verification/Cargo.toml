[package]
name = "ssimulacra2_cuda"
version = "0.1.0"
edition = "2021"
publish = false

[dependencies]
array-init = "=2.1.0"
cudarc = { version = "=0.19.10", default-features = false, features = ["std", "driver", "cuda-12050", "dynamic-loading"] }
matroska-demuxer = "=0.8.1"
zune-core = "=0.5.3"
zune-image = "=0.5.0"
