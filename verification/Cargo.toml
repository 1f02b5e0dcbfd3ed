[package]
name = "lottery_core"
version = "0.1.0"
edition = "2021"
publish = false

[dependencies]
rand = "0.8"
rand_chacha = "0.3"
nanoid = "0.4"
chrono = "0.4"
chrono-tz = "*"
serde = { version = "1", features = ["derive"] }
serde_json = "1"
tokio = { version = "1", features = ["rt-multi-thread", "macros", "sync", "time"] }
