[package]
name = "sol_trade_sdk"
version = "0.1.0"
edition = "2021"
publish = false

[dependencies]
aligned = "0.4"
anyhow = "=1.0.104"
base64 = "=0.22.1"
bincode = "=1.3.3"
bs58 = "=0.5.1"
crossbeam-queue = "=0.3.14"
crossbeam-utils = "=0.8.23"
once_cell = "=1.21.4"
serde = "=1.0.229"
sha2 = "=0.10.9"
solana-signature = { version = "=2.3.0", features = ["serde"] }
solana-transaction = { version = "=2.2.3", features = ["serde"] }
solana-transaction-status-client-types = "=2.3.13"
