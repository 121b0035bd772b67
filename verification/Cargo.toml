[package]
name = "asset_packer"
version = "0.1.0"
edition = "2021"
publish = false

[dependencies]
blake3 = "*"
uuid = { version = "*", features = ["v4"] }
serde = { version = "*", features = ["derive"] }
serde_json = "*"
base64 = "*"
log = "*"
backtrace = "*"
