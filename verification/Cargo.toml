[package]
name = "wafl"
version = "0.1.0"
edition = "2021"
publish = false

[dependencies]
nkeys = "*"
serde_json = "*"
