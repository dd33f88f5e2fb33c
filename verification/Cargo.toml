[package]
name = "first_ok"
version = "0.1.0"
edition = "2021"
publish = false

[dependencies]
rand = "0.8"
tokio = { version = "1", features = ["sync", "rt", "rt-multi-thread", "macros"] }
async-channel = "2"
futures = "0.3"
