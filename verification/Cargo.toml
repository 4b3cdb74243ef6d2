[package]
name = "loradb"
version = "0.1.0"
edition = "2021"
publish = false

[dependencies]
anyhow = "=1.0.104"
axum = "=0.7.9"
axum-server = { version = "0.7.3", features = ["tls-rustls"] }
base64 = "=0.21.7"
chrono = "=0.4.45"
dotenvy = "=0.15.7"
jsonwebtoken = "9"
serde = { version = "=1.0.229", features = ["derive"] }
serde_json = "=1.0.154"
tokio = { version = "=1.54.1", features = ["full"] }
tracing = "=0.1.44"
uuid = { version = "=1.29.0", features = ["v4"] }
