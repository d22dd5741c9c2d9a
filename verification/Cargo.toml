[package]
name = "helium"
version = "0.1.0"
edition = "2021"
publish = false

[dependencies]
nanoid = "*"
text-to-png = "*"
