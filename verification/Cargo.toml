[package]
name = "rivus"
version = "0.1.0"
edition = "2021"
publish = false

[dependencies]
toml = "*"
rand = "0.9"
axum = "0.8"
tokio = { version = "1", features = ["full"] }
serde = { version = "1", features = ["derive"] }
serde_yaml = "0.9"
anyhow = "1"
thiserror = "2"
validator = { version = "0.20", features = ["derive"] }
chrono = "0.4"
tracing = "0.1"
tracing-subscriber = { version = "0.3", features = ["chrono"] }
tracing-appender = "0.2"
log = "0.4"
dotenvy = "0.15"
