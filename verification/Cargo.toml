[package]
name = "libdatadog"
version = "0.1.0"
edition = "2021"
publish = false

[dependencies]
hyper = "0.14"
serde = { version = "1", features = ["derive"] }
tokio = { version = "1", features = ["net", "rt", "sync", "macros", "time"] }
tokio-util = "0.7"
tracing = "0.1"
