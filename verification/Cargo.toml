[package]
name = "ascon_adapter"
version = "0.1.0"
edition = "2021"
publish = false

[dependencies]
ascon-aead = "0.4"

[dev-dependencies]
rand = "0.8"
