[package]
name = "kvlog"
version = "0.1.0"
edition = "2021"
publish = false

[dependencies]
dashmap = "6"
axum = "0.8"
tokio = { version = "1", features = ["full"] }
