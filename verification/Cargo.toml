[package]
name = "distri_core"
version = "0.1.0"
edition = "2021"
publish = false

[dependencies]
serde = { version = "=1.0.229", features = ["derive"] }
serde_json = "=1.0.154"
sha2 = "=0.11.1"
uuid = { version = "=1.29.0", features = ["v4"] }
comfy-table = "=8.0.1"
opentelemetry = "=0.33.1"
dashmap = "=6.2.1"
