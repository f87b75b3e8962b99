[package]
name = "local_deploy"
version = "0.1.0"
edition = "2021"
publish = false

[dependencies]
anyhow = "=1.0.104"
axum = "=0.8.9"
flate2 = "=1.1.10"
reqwest = { version = "=0.12.28", default-features = false, features = ["rustls-tls", "charset", "http2"] }
rmcp = { version = "=3.8.0", features = ["server", "client", "macros", "transport-io", "transport-child-process"] }
serde = { version = "=1.0.229", features = ["derive"] }
serde_json = "=1.0.154"
tar = "=0.4.46"
tokio = { version = "=1.54.1", features = ["full"] }
tracing = "=0.1.44"
tracing-subscriber = { version = "=0.3.23", features = ["env-filter"] }
uuid = { version = "=1.29.0", features = ["v4"] }
walkdir = "=2.5.0"
