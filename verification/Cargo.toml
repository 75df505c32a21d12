[package]
name = "rabe"
version = "0.1.0"
edition = "2021"
publish = false

[dependencies]
rabe-bn = "=0.4.23"
rand = "=0.8.8"
num-bigint = "=0.5.1"
blake2-rfc = "=0.2.18"
rust-crypto = "=0.2.36"
