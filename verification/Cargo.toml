[package]
name = "request_router"
version = "0.1.0"
edition = "2021"
publish = false

[dependencies]
rocket = { version = "0.5", features = ["secrets"] }
serde_json = "=1.0.154"
