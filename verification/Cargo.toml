[package]
name = "pow_miner"
version = "0.1.0"
edition = "2021"
publish = false

[dependencies]
sha2 = "0.10"
digest = "0.10"
spmc = "0.3"
