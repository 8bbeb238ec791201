[package]
name = "deep_sea"
version = "0.1.0"
edition = "2021"
publish = false

[dependencies]
bit-set = "*"
itertools = "*"
rand = "0.9"
ndarray = "*"
num = "*"
burn = { version = "*", default-features = false }
