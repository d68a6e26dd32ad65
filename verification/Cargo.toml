[package]
name = "openplasma_circuits"
version = "0.1.0"
edition = "2021"
publish = false

[dependencies]
bellman_ce = "=0.3.5"
ff_ce = "=0.10.3"
pairing_ce = "=0.21.1"
rand = "=0.4.6"
sapling-crypto_ce = "=0.1.3"
