[package]
name = "bytelink"
version = "0.1.0"
edition = "2021"

[dependencies]
bytes = "1"
crossbeam = "0.8"
dashmap = "6"
flume = "0.11"
tokio = { version = "1", features = ["io-util", "macros", "net", "rt-multi-thread", "sync", "time"] }
uflow = "0.7"
