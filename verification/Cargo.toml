[package]
name = "oxstore"
version = "0.1.0"
edition = "2021"
publish = false

[dependencies]
sled = "0.34"

[dev-dependencies]
tempfile = "3"
