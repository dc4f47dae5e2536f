[package]
name = "nft_contract"
version = "0.1.0"
edition = "2021"
publish = false

[dependencies]
near-sdk = { version = "4.1", default-features = false }
near-contract-standards = { version = "4.1", default-features = false }
serde = { version = "1", features = ["derive"] }
