[package]
name = "dashboard_sockets"
version = "0.1.0"
edition = "2021"
publish = false

[dependencies]
anyhow = "1"
futures = "0.3"
hyper = { version = "0.14", features = ["server", "http1"] }
jsonwebtoken = { version = "8", default-features = false }
pty-process = { version = "0.2", features = ["backend-std"] }
serde = { version = "1", features = ["derive"] }
serde_json = "1"
tokio = { version = "1", features = ["rt", "rt-multi-thread", "macros", "sync", "fs", "io-util"] }
tokio-tungstenite = "0.17"
tracing = "0.1"
walkdir = "2"
zip = { version = "0.6", default-features = false, features = ["deflate"] }
