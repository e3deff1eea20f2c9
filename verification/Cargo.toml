[package]
name = "beachcomber"
version = "0.1.0"
edition = "2021"
publish = false

[dependencies]
notify = "8"
serde = { version = "1", features = ["derive"] }
serde_json = "1"
tokio = { version = "1", features = ["io-util", "macros", "net", "rt-multi-thread", "sync", "time"] }
tracing = "0.1"
