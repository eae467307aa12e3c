[package]
name = "conncore"
version = "0.1.0"
edition = "2021"
publish = false

[dependencies]
tokio = { version = "1", features = ["rt-multi-thread", "sync", "net"] }
parking_lot = "0.12"
serde = { version = "1", features = ["derive"] }
