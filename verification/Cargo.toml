[package]
name = "faas_nfv"
version = "0.1.0"
edition = "2021"
publish = false

[dependencies]
fnv = "1"
getopts = "0.2"
redis = { version = "*", default-features = false }
