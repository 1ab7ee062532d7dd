[package]
name = "arith_core"
version = "0.1.0"
edition = "2021"
publish = false

[dependencies]
modinverse = "0.1"
sha3 = "0.10"
