[package]
name = "hashclock"
version = "0.1.0"
edition = "2021"
publish = false

[dependencies]
blake3 = "1"
crossbeam-channel = "0.5"
tracing = "0.1"
tracing-subscriber = { version = "0.3", features = ["env-filter"] }
