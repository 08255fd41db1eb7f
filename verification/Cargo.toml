[package]
name = "helius-stream"
version = "0.1.1"
edition = "2021"
publish = false

[dependencies]
base64 = "0.22"
bs58 = "0.5"
log = "0.4"
serde = { version = "1", features = ["derive"] }
serde_json = "1"
thiserror = "*"
tungstenite = "*"
