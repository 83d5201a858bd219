[package]
name = "asset_canister"
version = "0.1.0"
edition = "2021"
publish = false

[dependencies]
candid = "=0.8.4"
ic-cdk = "=0.6.10"
ic-cdk-macros = "=0.6.10"
ic-stable-structures = "=0.3.0"
num-traits = "=0.2.19"
serde = { version = "=1.0.229", features = ["derive"] }
serde_bytes = "=0.11.19"
sha3 = "=0.10.9"
