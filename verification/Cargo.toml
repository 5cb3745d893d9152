[package]
name = "dashdotcache"
version = "0.1.0"
edition = "2021"

[dependencies]
axum = "0.8"
dashmap = { version = "6", features = ["raw-api"] }
serde = { version = "1", features = ["derive"] }
thiserror = "2"
tokio = { version = "1", features = ["full"] }
tracing = "0.1"
