[package]
name = "fee_token"
version = "0.1.0"
edition = "2021"
publish = false

[dependencies]
bincode = "1.3"
solana-program = "1.18"
spl-token-2022 = "1.0"
