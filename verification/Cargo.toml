[package]
name = "miyu"
version = "0.1.0"
edition = "2021"
publish = false

[dependencies]
base64 = "=0.22.1"
sha2 = "=0.10.9"
blake3 = "=1.8.7"
serde_json = "=1.0.154"
tokio = { version = "=1.54.1", features = ["rt", "macros"] }
image = "0.25"
