[package]
name = "stain"
version = "0.1.0"
edition = "2021"
publish = false

[dependencies]
itertools = "*"
inventory = "*"
parking_lot = "*"
