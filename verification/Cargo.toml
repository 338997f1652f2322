[package]
name = "pubky-messenger"
version = "0.1.0"
edition = "2021"
publish = false

[dependencies]
base32 = "*"
pkarr = "=8.1.0"
pubky = "=0.15.0"
pubky-common = "=0.15.0"
x25519-dalek = { version = "=3.0.0", features = ["static_secrets"] }
curve25519-dalek = "=5.0.0"
ed25519-dalek = "=3.0.0"
sha2 = "=0.11.0"
blake3 = "=1.8.7"
bip39 = "=3.0.0"
uuid = { version = "=1.27.0", features = ["v4"] }
serde = { version = "*", features = ["derive"] }
serde_json = "*"
tokio = { version = "*", features = ["rt", "time", "macros"] }
futures = "*"
anyhow = "*"

[dev-dependencies]
hex = "*"
