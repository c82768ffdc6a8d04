[package]
name = "revm_uint"
version = "0.1.0"
edition = "2021"
publish = false

[dependencies]
alloy-primitives = { version = "*", default-features = false, features = ["std", "serde"] }
ruint = "*"
serde = "*"
