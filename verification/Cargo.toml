[package]
name = "deed"
version = "0.1.0"
edition = "2021"
publish = false

[dependencies]
sha2 = "0.10"
chrono = "0.4"
serde = { version = "1", features = ["derive"] }
serde_json = "1"
bincode = "1"
tokio = { version = "1", features = ["rt-multi-thread", "macros", "time", "sync", "net", "io-util"] }
rand = "0.8"
flate2 = "1"
dashmap = "5"
parking_lot = "0.12"
num_cpus = "1"
prometheus = "0.13"
