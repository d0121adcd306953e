[package]
name = "nanokit"
version = "0.1.0"
edition = "2021"
publish = false

[dependencies]
byteio = "*"
parking_lot = "*"
