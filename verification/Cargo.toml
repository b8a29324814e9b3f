[package]
name = "tiered_cache"
version = "0.1.0"
edition = "2021"
publish = false

[dependencies]
dashmap = "*"
tokio = { version = "*", features = ["sync"] }
futures = "*"
parking_lot = "*"
crossbeam-utils = "*"
