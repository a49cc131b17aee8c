[package]
name = "openapi_catalog"
version = "0.1.0"
edition = "2021"
publish = false

[dependencies]
serde_json = "1"
serde = { version = "1", features = ["derive"] }
chrono = "0.4"
tokio = { version = "1", features = ["rt-multi-thread", "macros", "time", "fs", "io-util"] }
reqwest = { version = "0.12", default-features = false, features = ["stream"] }
futures-util = { version = "0.3", default-features = false }
