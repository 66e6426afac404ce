[package]
name = "kakadu_vault"
version = "0.1.0"
edition = "2021"
publish = false

[dependencies]
aes = "0.8"
sha2 = "0.10"

[dev-dependencies]
serde_json = "1"
