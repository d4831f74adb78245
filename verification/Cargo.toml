[package]
name = "remotia"
version = "0.1.0"
edition = "2021"
publish = false

[dependencies]
chrono = "0.4"
rand = "0.8"
socket2 = "0.5"
tokio = { version = "1", features = ["rt", "rt-multi-thread", "sync", "time", "macros"] }
