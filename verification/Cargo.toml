[package]
name = "bolt_wire"
version = "0.1.0"
edition = "2021"
publish = false

[dependencies]
bitcoin = "0.29"
secp256k1 = "0.24"

[dev-dependencies]
hex = "0.4"
