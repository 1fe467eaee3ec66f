[package]
name = "mrbgpdv2"
version = "0.1.0"
edition = "2021"
publish = false

[dependencies]
tokio = { version = "*", features = ["net", "rt-multi-thread", "io-util", "sync", "time", "macros"] }
rtnetlink = "*"
futures = "*"
bytes = "*"
