[package]
name = "etlctl"
version = "0.1.0"
edition = "2021"
publish = false

[dependencies]
blake3 = "*"
percent-encoding = "*"
chrono = "*"
serde = { version = "*", features = ["derive"] }
serde_json = "*"
anyhow = "*"
arrow = "*"
parquet = "*"
tokio = { version = "*", features = ["rt-multi-thread", "macros", "fs", "io-util"] }
csv-async = { version = "*", features = ["tokio"] }
futures = "*"
clap = { version = "*", features = ["derive"] }
geohash = "*"
