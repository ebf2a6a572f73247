[package]
name = "nomad-server"
version = "0.1.0"
edition = "2021"
publish = false

[dependencies]
anyhow = "=1.0.104"
axum = "=0.8.9"
base64 = "=0.22.1"
bitcoin = "=0.32.102"
electrum-client = "=0.25.2"
hex = "=0.4.3"
hmac = "=0.12.1"
nostr = { version = "=0.44.8", features = ["nip59"] }
nostr-sdk = { version = "=0.44.1", features = ["nip59"] }
qrcode = "=0.14.1"
rand = "=0.9.5"
rustls = { version = "=0.23.46", features = ["ring"] }
serde = { version = "=1.0.229", features = ["derive"] }
serde_json = "=1.0.154"
sha2 = "=0.10.9"
subtle = "=2.6.1"
thiserror = "=2.0.21"
tokio = { version = "=1.54.1", features = ["full"] }
tracing = "=0.1.44"
tracing-subscriber = { version = "=0.3.23", features = ["env-filter"] }
uuid = { version = "=1.29.0", features = ["v4"] }
