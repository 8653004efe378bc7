[package]
name = "hashi_core"
version = "0.1.0"
edition = "2021"
publish = false

[dependencies]
anchor-lang = "*"
solana-program = "*"
alloy-primitives = "*"
alloy-sol-types = "*"
