[package]
name = "scroll_verifier"
version = "0.1.0"
edition = "2021"
publish = false

[dependencies]
c-kzg = "1"
log = "0.4"
sha3 = "0.10"
zstd = "0.13"

[dev-dependencies]
hex = "0.4"
