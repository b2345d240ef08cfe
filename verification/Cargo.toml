[package]
name = "rgb_wallet"
version = "0.1.0"
edition = "2021"
publish = false

[dependencies]
scrypt = "*"
