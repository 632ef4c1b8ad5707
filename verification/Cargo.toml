[package]
name = "dns_pipeline"
version = "0.1.0"
edition = "2021"
publish = false

[dependencies]
futures-util = "0.3"
reqwest = { version = "0.12", default-features = false }
serde = { version = "1", features = ["derive"] }
tokio = { version = "1", features = ["io-util", "sync", "time", "rt", "macros"] }
tracing = "0.1"
