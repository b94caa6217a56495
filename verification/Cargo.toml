[package]
name = "calbot"
version = "0.1.0"
edition = "2021"
publish = false

[dependencies]
chrono = "0.4"
futures = "0.1"
reqwest = "0.9"
serde = { version = "1", features = ["derive"] }
serde_json = "1"
