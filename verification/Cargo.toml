[package]
name = "wallet_operation_test"
version = "0.1.0"
edition = "2021"
publish = false

[dependencies]
bdk = { version = "=0.28.2", default-features = false, features = ["std", "keys-bip39"] }
clap = { version = "=4.6.7", features = ["derive"] }
serde = { version = "=1.0.229", features = ["derive"] }
serde_json = "=1.0.151"
