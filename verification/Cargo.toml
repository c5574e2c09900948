[package]
name = "midnight_ledger"
version = "0.1.0"
edition = "2021"
publish = false

[dependencies]
sha2 = "=0.10.9"
borsh = "=1.8.1"
rand = "=0.8.8"
rpds = "=1.2.1"
hex = "=0.4.3"
tracing = "=0.1.44"
tracing-subscriber = "=0.3.23"
k256 = { version = "0.13", features = ["schnorr"] }
signature = "2"
