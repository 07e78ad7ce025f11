[package]
name = "swiftssh"
version = "0.1.0"
edition = "2021"
publish = false

[dependencies]
aes = "0.8"
ctr = "0.9"
hmac = "0.12"
sha2 = "0.10"
rand = "0.8"
x25519-dalek = "2"
byteorder = "1"
thiserror = "1"
anyhow = "1"
tokio = { version = "1", features = ["full"] }
clap = { version = "4", features = ["derive"] }
tracing = "0.1"
tracing-subscriber = { version = "0.3", features = ["env-filter"] }
