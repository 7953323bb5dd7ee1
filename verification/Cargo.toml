[package]
name = "operation-queue"
version = "0.1.0"
edition = "2021"
publish = false

[dependencies]
async-channel = "2"
log = "0.4"

[dev-dependencies]
tokio = { version = "1", features = ["rt", "rt-multi-thread", "time"] }
