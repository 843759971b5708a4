[package]
name = "walrus_codec"
version = "0.1.0"
edition = "2021"
publish = false

[dependencies]
fastcrypto = "=0.1.11"
