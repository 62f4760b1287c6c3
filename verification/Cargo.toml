[package]
name = "nft_ino"
version = "0.1.0"
edition = "2021"
publish = false

[dependencies]
rand = "0.7"
near-sdk = "3"
near-contract-standards = "3"
