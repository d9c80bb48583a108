[package]
name = "zeroclaw"
version = "0.1.0"
edition = "2021"
publish = false

[dependencies]
anyhow = "1"
async-trait = "0.1"
base64 = "0.22"
serde_json = "1"
sha2 = "0.10"
tokio = { version = "1", features = ["fs", "time"] }
tracing = "0.1"
