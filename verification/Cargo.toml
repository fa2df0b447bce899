[package]
name = "ribn"
version = "0.1.0"
edition = "2021"
publish = false

[dependencies]
cudarc = { version = "*", default-features = false, features = ["std", "driver", "cublas", "dynamic-loading", "cuda-12080"] }
serde_json = "=1.0.154"
