[package]
name = "certified_assets"
version = "0.1.0"
edition = "2021"
publish = false

[dependencies]
candid = "=0.10.39"
globset = "=0.4.20"
ic-asset-certification = "=4.0.0"
ic-cdk = "=0.19.0"
ic-http-certification = "=4.0.0"
ic-ledger-types = "=0.16.0"
icrc-ledger-types = "=0.2.0"
include_dir = "=0.7.4"
serde = { version = "=1.0.229", features = ["derive"] }
