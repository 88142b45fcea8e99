[package]
name = "consensus_core"
version = "0.1.0"
edition = "2021"
publish = false

[dependencies]
hbbft = "=0.1.1"
threshold_crypto = "=0.3.2"
sha256 = "=1.6.0"
hex = "=0.4.3"
secp256k1 = "=0.33.1"
rand = "0.6"
chrono = "=0.4.45"
bincode = "1"
serde = { version = "=1.0.229", features = ["derive"] }
serde_json = "=1.0.151"
uuid = { version = "=1.27.0", features = ["v4"] }
rayon = "=1.12.0"
thiserror = "=2.0.21"
