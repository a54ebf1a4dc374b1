[package]
name = "logger"
version = "0.1.0"
edition = "2021"
publish = false

[dependencies]
chrono = "0.4"
chrono-tz = "0.10"
arrow = "*"
parquet = { version = "*", default-features = false, features = ["arrow", "zstd"] }
polars = { version = "*", default-features = false, features = ["lazy", "parquet"] }
rayon = "1"
glob = "0.3"
tokio = { version = "1", features = ["rt-multi-thread", "macros", "time", "net"] }
tokio-tungstenite = { version = "*", features = ["rustls-tls-webpki-roots"] }
futures-util = "0.3"
reqwest = { version = "*", default-features = false, features = ["json", "rustls-tls"] }
serde = { version = "1", features = ["derive"] }
serde_json = "1"
uuid = { version = "1", features = ["v4"] }
