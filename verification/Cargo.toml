[package]
name = "hotpath"
version = "0.1.0"
edition = "2021"
publish = false

[dependencies]
crossbeam-channel = "0.5"

[dev-dependencies]
serde_json = "1"
