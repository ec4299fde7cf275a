[package]
name = "nakamoto_p2p"
version = "0.1.0"
edition = "2021"
publish = false

[dependencies]
bitcoin = "*"
bitcoin_hashes = "*"
fastrand = "*"
crossbeam-channel = "*"
