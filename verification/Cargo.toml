[package]
name = "partial_crc32"
version = "0.1.0"
edition = "2021"
publish = false

[dependencies]
crc32fast = "*"

[dev-dependencies]
rand_xoshiro = "*"
