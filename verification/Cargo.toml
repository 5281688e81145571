[package]
name = "bataille"
version = "0.1.0"
edition = "2021"
publish = false

[dependencies]
stylus-sdk = "=0.4.3"
alloy-primitives = { version = "=0.3.3", default-features = false, features = ["tiny-keccak"] }
ruint = { version = ">=1.10.1, <1.13", default-features = false }
rand = { version = "=0.8.8", default-features = false }
mini-alloc = "=1.0.0"
