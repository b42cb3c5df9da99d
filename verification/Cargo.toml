[package]
name = "rftap"
version = "0.1.0"
edition = "2021"
publish = false

[dependencies]
anyhow = "1"
byteorder = "1"

[dev-dependencies]
hex = "0.4"
