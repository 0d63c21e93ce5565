[package]
name = "encryption"
version = "0.1.0"
edition = "2021"
publish = false

[dependencies]
hex = "0.4"
rand = "0.8"
