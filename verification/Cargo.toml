[package]
name = "rust-disk-cache"
version = "0.1.0"
edition = "2021"
publish = false

[dependencies]
aes-gcm = "0.9"
base64 = "0.13"
rand = "0.8"
flate2 = "1"
sha2 = "0.10"
hex = "0.4"
chrono = "0.4"
generic-array = "0.14"
serde = { version = "1", features = ["derive"] }
serde_json = "1"
bincode = "1"
tokio = { version = "1", features = ["full"] }
thiserror = "1"
anyhow = "1"
log = "0.4"
async-trait = "0.1"
dialoguer = "0.11"
heim = { version = "0.1.0-rc.1", features = ["cpu", "memory"] }
