[package]
name = "peer_database"
version = "0.1.0"
edition = "2021"
publish = false

[dependencies]
itertools = "0.10"
serde = { version = "1", features = ["derive"] }
serde_json = "1"
tokio = { version = "1", features = ["fs", "macros", "rt", "sync", "time"] }
