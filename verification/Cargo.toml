[package]
name = "zlink"
version = "0.1.0"
edition = "2021"
publish = false

[dependencies]
memchr = "=2.8.3"
serde = { version = "=1.0.229", features = ["derive"] }
serde_json = "=1.0.154"
tokio = { version = "=1.54.1", features = ["net", "io-util", "rt", "macros"] }
anyhow = "=1.0.104"
clap = { version = "=4.6.7", features = ["derive"] }
mayheap = "=0.2.0"
