[package]
name = "quota_ledger"
version = "0.1.0"
edition = "2021"
publish = false

[dependencies]
cbor = "=0.3.16"
rustc-serialize = "=0.3.25"
routing = "=0.4.1"
