[package]
name = "interpreter"
version = "0.1.0"
edition = "2021"
publish = false

[dependencies]
plonky2 = "*"
blake3 = "*"
