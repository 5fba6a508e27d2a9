[package]
name = "litebook"
version = "0.1.0"
edition = "2021"
publish = false

[dependencies]
pyo3 = "0.22"
serde = { version = "1", features = ["derive"] }
uuid = { version = "1", features = ["v4"] }
