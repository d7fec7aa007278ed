[package]
name = "reactive_txn"
version = "0.1.0"
edition = "2021"
publish = false

[dependencies]
tokio = { version = "1", features = ["sync", "time", "rt-multi-thread", "macros"] }
