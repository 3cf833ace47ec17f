[package]
name = "sparse_olps"
version = "0.1.0"
edition = "2021"
publish = false

[dependencies]
ndarray = "0.16"
sprs = "0.11"
cudarc = { version = "*", default-features = false, features = ["std", "driver", "cublas", "cusparse", "cuda-12080", "dynamic-loading"] }
