[package]
name = "rfid_voting"
version = "0.1.0"
edition = "2021"
publish = false

[dependencies]
alloy-primitives = { version = "=0.7.6", default-features = false }
alloy-sol-macro = "=0.7.6"
alloy-sol-macro-expander = "=0.7.6"
alloy-sol-macro-input = "=0.7.6"
alloy-sol-types = { version = "=0.7.6", default-features = false }
ruint = { version = "=1.12.3", default-features = false }
stylus-sdk = { version = "=0.6.1", default-features = false }
syn-solidity = "=0.7.6"
