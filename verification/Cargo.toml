[package]
name = "muxproxy"
version = "0.1.0"
edition = "2021"
publish = false

[dependencies]
eyre = "*"
flume = "*"
tokio = { version = "*", features = ["rt-multi-thread", "net", "io-util", "macros", "time"] }
