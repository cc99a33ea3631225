[package]
name = "meshtalk"
version = "0.1.0"
edition = "2021"
publish = false

[dependencies]
anyhow = "=1.0.104"
async-trait = "=0.1.92"
bincode = "=1.3.3"
blake3 = "=1.8.7"
btleplug = "=0.11.8"
chacha20poly1305 = "=0.10.1"
clap = { version = "=4.6.7", features = ["derive"] }
ed25519-dalek = { version = "=2.2.0", features = ["rand_core"] }
futures = "=0.3.34"
log = "=0.4.35"
rand = "=0.8.8"
rusqlite = { version = "=0.31.0", features = ["bundled"] }
serde = { version = "=1.0.229", features = ["derive"] }
serde_json = "=1.0.154"
socket2 = { version = "=0.5.10", features = ["all"] }
thiserror = "=1.0.69"
tokio = { version = "=1.54.1", features = ["full"] }
uniffi = "=0.28.3"
uuid = "=1.29.0"
x25519-dalek = { version = "=2.0.1", features = ["static_secrets"] }
