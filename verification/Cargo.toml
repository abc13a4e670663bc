[package]
name = "node_monitor"
version = "0.1.0"
edition = "2021"
publish = false

[dependencies]
base64 = "0.22"
hmac = "0.12"
sha2 = "0.10"
