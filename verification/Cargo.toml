[package]
name = "tron_codec"
version = "0.1.0"
edition = "2021"
publish = false

[dependencies]
hex = "*"
ur = "*"

[dev-dependencies]
serde_cbor = "*"
