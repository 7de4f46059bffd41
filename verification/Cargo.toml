[package]
name = "picobroker-core"
version = "0.1.0"
edition = "2021"
publish = false

[dependencies]
heapless = "0.8"
log = "0.4"
tokio = { version = "1", features = ["net", "sync", "time", "io-util", "rt", "macros"] }
dashmap = "6"
bytes = "1"
embassy-sync = "*"
embassy-time = "*"
