[package]
name = "valid8"
version = "0.1.0"
edition = "2021"
publish = false

[dependencies]
anyhow = "1"
dialoguer = "*"
serde = { version = "1", features = ["derive"] }
serde_json = "1"
solana-sdk = "1.18"
