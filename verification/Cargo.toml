[package]
name = "brz-metrics"
version = "0.0.4"
edition = "2021"
publish = false

[dependencies]
ahash = "0.8"
chrono = "0.4"
serde_json = "1"
