[package]
name = "nft_ledger"
version = "0.1.0"
edition = "2021"
publish = false

[dependencies]
near-sdk = { version = "*", features = ["unit-testing"] }

[dev-dependencies]
near-sdk = { version = "*", features = ["unit-testing"] }
