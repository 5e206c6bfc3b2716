[package]
name = "sponsored_logs"
version = "0.1.0"
edition = "2021"
publish = false

[dependencies]
rand = "0.8"
tracing = "0.1"
tracing-subscriber = "0.3"
