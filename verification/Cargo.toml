[package]
name = "hookrelay"
version = "0.1.0"
edition = "2021"
publish = false

[dependencies]
uuid = { version = "1", features = ["v4"] }
base64 = "0.22"
sha2 = "0.10"
hex = "0.4"
chrono = "0.4"
serde = { version = "1", features = ["derive"] }
serde_json = "1"
hyper = { version = "0.14", features = ["full"] }
hyper-rustls = "0.22"
tokio = { version = "1", features = ["full"] }
argh = "0.1"
log = "0.4"
simplelog = "0.12"
anyhow = "1"
bytes = "1"
async-trait = "0.1"
