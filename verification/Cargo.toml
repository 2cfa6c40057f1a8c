[package]
name = "easy_download"
version = "0.1.0"
edition = "2021"
publish = false

[dependencies]
reqwest = "0.11"
tokio = { version = "1", features = ["full"] }
anyhow = "1"
sled = "0.34"
serde = { version = "1", features = ["derive"] }
serde_json = "1"
byte-unit = "5"
