[package]
name = "certstore"
version = "0.1.0"
edition = "2021"
publish = false

[dependencies]
base64 = "=0.13.1"
candid = "=0.10.39"
ic-cdk = "=0.13.6"
ic-cdk-macros = "=0.13.2"
ic-certified-map = "=0.4.1"
serde = { version = "=1.0.229", features = ["derive"] }
serde_cbor = "=0.11.2"
sha2 = "=0.10.9"
