[package]
name = "ws_relay"
version = "0.1.0"
edition = "2021"
publish = false

[dependencies]
serde_json = "*"
uuid = { version = "*", features = ["v4"] }
axum = { version = "*", features = ["ws"] }
axum-server = { version = "*", features = ["tls-rustls"] }
tokio = { version = "*", features = ["rt-multi-thread", "macros", "sync", "time", "net"] }
futures = "*"
dotenv = "*"
