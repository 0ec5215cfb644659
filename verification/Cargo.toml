[package]
name = "milo"
version = "0.1.0"
edition = "2021"
publish = false

[dependencies]
jieba-rs = "=0.11.0"
chrono = { version = "=0.4.45", features = ["serde"] }
serde = { version = "=1.0.229", features = ["derive"] }
serde_json = "=1.0.151"
dirs = "=7.0.0"
