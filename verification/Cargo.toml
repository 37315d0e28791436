[package]
name = "coswid_tree"
version = "0.1.0"
edition = "2021"
publish = false

[dependencies]
sha2 = "*"
anyhow = "*"

[dev-dependencies]
ciborium = "*"
coswid = "*"
