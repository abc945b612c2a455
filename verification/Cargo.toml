[package]
name = "mycrypt"
version = "0.1.0"
edition = "2021"
publish = false

[dependencies]
aes-gcm = "*"
argon2 = "*"
base64 = "*"
rand = "*"
anyhow = "*"
clap = { version = "*", features = ["derive"] }
dirs = "*"
serde = { version = "*", features = ["derive"] }
toml = "*"
indicatif = "*"
