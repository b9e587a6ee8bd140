[package]
name = "polynomial_series"
version = "0.1.0"
edition = "2021"
publish = false

[dependencies]
num-traits = "=0.2.19"
ndarray = "=0.16.1"
ndarray-linalg = { version = "=0.17.0", default-features = false }
serde = { version = "=1.0.229", features = ["derive"] }
thiserror = "=2.0.21"
