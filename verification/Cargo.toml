[package]
name = "lightclient"
version = "0.1.0"
edition = "2021"
publish = false

[dependencies]
blake2-rfc = "0.2"
rand = "0.8"
rand_chacha = "0.3"
