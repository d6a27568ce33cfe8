[package]
name = "pinocchio"
version = "0.1.0"
edition = "2021"
publish = false

[dependencies]
solana-account-view = "*"
solana-address = "*"
solana-program-error = "*"
