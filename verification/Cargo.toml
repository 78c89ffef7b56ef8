[package]
name = "unison"
version = "0.1.0"
edition = "2021"
publish = false

[dependencies]
seckey = "*"
serde_json = "1"
serde_yaml = "*"
toml = "*"
