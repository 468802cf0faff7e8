[package]
name = "relay_core"
version = "0.1.0"
edition = "2021"
publish = false

[dependencies]
hyper = { version = "0.14", features = ["full"] }
axum = "0.6"
tokio = { version = "1", features = ["full"] }

[dev-dependencies]
serde_json = "1"
