[package]
name = "ufw_auto_block"
version = "0.1.0"
edition = "2021"
publish = false

[dependencies]
ini = "*"
serde = "*"
serde_derive = "*"
toml = "*"
