[package]
name = "scenario_engine"
version = "0.1.0"
edition = "2021"
publish = false

[dependencies]
base64 = "*"
hkdf = "*"
rand = "*"
serde = { version = "*", features = ["derive"] }
serde_cbor = "*"
serde_json = "*"
sha2 = "*"
