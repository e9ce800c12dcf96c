[package]
name = "unit_info"
version = "0.1.0"
edition = "2021"
publish = false

[dependencies]
anyhow = "1"
gimli = { version = "0.26", default-features = false, features = ["read", "std", "endian-reader"] }
log = "0.4"
num-traits = "0.2"
