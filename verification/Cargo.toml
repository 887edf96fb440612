[package]
name = "streamkit"
version = "0.1.0"
edition = "2021"
publish = false

[dependencies]
rust_decimal = { version = "1", default-features = false, features = ["std"] }
crc32fast = "1"
itertools = "*"
futures = "0.3"
tracing = "0.1"
