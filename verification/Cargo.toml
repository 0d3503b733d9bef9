[package]
name = "mini_redis"
version = "0.1.0"
edition = "2021"
publish = false

[dependencies]
serde = { version = "1", features = ["derive"] }
serde_json = "1"
tokio = { version = "1", features = ["full"] }
tokio-util = "0.7"
log = "0.4"
env_logger = "*"
anyhow = "1"
axum = "*"
dirs = "*"
futures = "0.3"
