[package]
name = "media_registry"
version = "0.1.0"
edition = "2021"
publish = false

[dependencies]
serde = { version = "1", features = ["derive"] }
serde_json = "1"
tokio = { version = "1", features = ["fs", "process", "rt", "rt-multi-thread", "sync", "macros"] }
uuid = { version = "1", features = ["v4"] }
