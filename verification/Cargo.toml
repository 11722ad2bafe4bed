[package]
name = "fast_h2m"
version = "0.1.0"
edition = "2021"
publish = false

[dependencies]
tl = "*"
mdream = "*"
serde = { version = "1", features = ["derive"] }
serde_json = "1"
pyo3 = "*"
