[package]
name = "anawt"
version = "0.1.0"
edition = "2021"
publish = false

[dependencies]
lt-rs = "*"
tokio = { version = "1", features = ["sync", "rt", "time"] }
tracing = "0.1"
rclite = "*"
error_set = "*"
