[package]
name = "bencher"
version = "0.1.0"
edition = "2021"
publish = false

[dependencies]
bumpalo = { version = "3", features = ["collections"] }
csv = "1"
regex = "1"
