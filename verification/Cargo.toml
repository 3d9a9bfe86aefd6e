[package]
name = "bp_emulator"
version = "0.1.0"
edition = "2021"
publish = false

[dependencies]
bit_field = "=0.10.3"

[dev-dependencies]
regex = "1"
