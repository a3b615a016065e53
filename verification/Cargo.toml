[package]
name = "realtime_hub"
version = "0.1.0"
edition = "2021"
publish = false

[dependencies]
serde_json = "1"
serde = { version = "1", features = ["derive"] }
bytes = "1"
futures = "0.3"
pin-project = "1"
tokio = { version = "1", features = ["sync", "rt", "macros"] }
tokio-stream = { version = "0.1", features = ["sync"] }
parking_lot = "0.12"
tracing = "0.1"
anyhow = "1"
actix = "0.13"
reqwest = { version = "0.12", default-features = false, features = ["stream"] }
