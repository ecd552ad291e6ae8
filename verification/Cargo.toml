[package]
name = "redis_lite"
version = "0.1.0"
edition = "2021"
publish = false

[dependencies]
rand = "*"
regex = "*"
tokio = { version = "*", features = ["full"] }
bytes = "*"
