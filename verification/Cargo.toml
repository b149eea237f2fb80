[package]
name = "kvs"
version = "0.1.0"
edition = "2021"
publish = false

[dependencies]
sled = "0.34"
rayon = "1"
crossbeam-channel = "0.5"

[dev-dependencies]
serde_json = "1"
