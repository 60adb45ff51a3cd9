[package]
name = "crev_core"
version = "0.1.0"
edition = "2021"
publish = false

[dependencies]
base64 = "*"
blake2 = "*"
chrono = "*"
dirs = "*"
rpassword = "*"
rprompt = "*"
semver = "*"
serde = "*"
serde_yaml = "*"
