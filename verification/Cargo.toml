[package]
name = "fafreplay"
version = "0.1.0"
edition = "2021"
publish = false

[dependencies]
pyo3 = "=0.15.2"

[dev-dependencies]
faf-replay-parser = "=0.6.0"
