[package]
name = "tetron-messageboard"
version = "0.1.0"
edition = "2021"
publish = false

[dependencies]
anyhow = "1"
axum = { version = "0.8", features = ["multipart"] }
blake3 = { version = "1", default-features = false, features = ["pure", "std"] }
clap = { version = "4", features = ["derive", "env"] }
dirs = "*"
serde = { version = "1", features = ["derive"] }
serde_json = "1"
tokio = { version = "1", features = ["full"] }
