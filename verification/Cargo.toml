[package]
name = "emycloud_client_rs"
version = "0.1.0"
edition = "2021"
publish = false

[dependencies]
anyhow = "1"
bytes = "1"
clap = { version = "3", features = ["derive"] }
log = "0.4"
reqwest = { version = "0.11", default-features = false, features = ["multipart"] }
serde_json = "1"
simplelog = "0.12"
tokio = { version = "1", features = ["fs", "macros", "rt-multi-thread"] }
uuid = { version = "1", features = ["v4", "v5"] }
