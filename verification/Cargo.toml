[package]
name = "blob_sidecar"
version = "0.1.0"
edition = "2021"
publish = false

[dependencies]
sha2 = "*"
c-kzg = "*"
