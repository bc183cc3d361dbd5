[package]
name = "mononoke"
version = "0.1.0"
edition = "2021"
publish = false

[dependencies]
twox-hash = "=1.6.3"
percent-encoding = "=2.3.2"
itertools = "=0.12.1"
rand = "=0.8.8"
rust-crypto = "=0.2.36"
http = "0.2"
chrono = { version = "=0.4.45", features = ["serde"] }
serde = { version = "=1.0.229", features = ["derive"] }
serde_json = "=1.0.154"
