[package]
name = "plasma"
version = "0.1.0"
edition = "2021"
publish = false

[dependencies]
bigdecimal = "=0.4.11"
sapling-crypto_ce = "=0.1.3"
