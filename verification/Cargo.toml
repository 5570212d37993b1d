[package]
name = "transaction_meta"
version = "0.1.0"
edition = "2021"
publish = false

[dependencies]
solana-sdk = "*"
tracing = "*"
yellowstone-grpc-proto = "*"
