[package]
name = "rapido"
version = "0.1.0"
edition = "2021"
publish = false

[dependencies]
abci = "*"

[dev-dependencies]
borsh = "*"
