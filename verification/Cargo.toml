[package]
name = "wombat"
version = "0.1.0"
edition = "2021"
publish = false

[dependencies]
regex = "=1.13.1"
range-overlap = "=0.0.1"
sha2 = "=0.10.9"
base64 = "=0.22.1"
urlencoding = "=2.1.3"
rand = "=0.9.5"
headers = "=0.4.2"
chrono = "=0.4.45"
serde = { version = "=1.0.229", features = ["derive"] }
serde_json = "=1.0.154"
tokio = { version = "=1.54.1", features = ["rt-multi-thread", "macros", "sync", "time", "process"] }
home = "=0.5.12"
uuid = { version = "=1.29.0", features = ["v4", "serde"] }
