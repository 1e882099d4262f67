[package]
name = "peer_router"
version = "0.1.0"
edition = "2021"
publish = false

[dependencies]
dashmap = "*"
futures = "*"
async-trait = "*"
tokio = { version = "*", features = ["net", "rt", "sync", "io-util"] }
tokio-util = { version = "*", features = ["codec"] }
