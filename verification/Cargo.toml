[package]
name = "certcycle"
version = "0.1.0"
edition = "2021"
publish = false

[dependencies]
axum = "*"
axum-server = "*"
log = "*"
rustls-acme = { version = "*", features = ["axum"] }
simple_logger = "*"
tokio = { version = "*", features = ["full"] }
tokio-stream = "*"
