[package]
name = "saforia"
version = "0.1.0"
edition = "2021"
publish = false

[dependencies]
sha2 = "0.10"
md5 = "0.7"
base64 = "0.22"
argon2 = "0.5"
aes-gcm = "0.10"
chacha20poly1305 = "0.10"
rand = "0.8"
zeroize = "1"
serde = { version = "1", features = ["derive"] }
serde_json = "1"
thiserror = "1"
directories = "5"
chrono = "0.4"
