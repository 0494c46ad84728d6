[package]
name = "merkle_sigma"
version = "0.1.0"
edition = "2021"
publish = false

[dependencies]
curv-kzen = "0.10"
sha2 = "0.9"
rand = "0.8"
