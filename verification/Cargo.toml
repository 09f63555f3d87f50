[package]
name = "slate"
version = "0.1.0"
edition = "2021"
publish = false

[dependencies]
bytes = "1"
rust-argon2 = "*"
rand = "0.8"
nx = "*"
serde = { version = "1", features = ["derive"] }
serde_json = "1"
tokio = { version = "1", features = ["full"] }
log = "0.4"
env_logger = "*"
anyhow = "1"
dotenvy = "*"
chrono = "0.4"
