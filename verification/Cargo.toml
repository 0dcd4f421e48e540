[package]
name = "fedcore"
version = "0.1.0"
edition = "2021"
publish = false

[dependencies]
anyhow = "1"
sync_wrapper = "*"
tokio = { version = "1", features = ["rt", "rt-multi-thread", "sync", "time"] }
