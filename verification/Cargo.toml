[package]
name = "upcoming_leader"
version = "0.1.0"
edition = "2021"
publish = false

[dependencies]
solana-pubkey = "*"
tracing = "*"
