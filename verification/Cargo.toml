[package]
name = "polymarket_hft"
version = "0.1.0"
edition = "2021"
publish = false

[dependencies]
alloy-primitives = { version = "*", default-features = false, features = ["std"] }
alloy-sol-types = "*"
flume = "*"
hex = "*"
parking_lot = "*"
reqwest = { version = "*", default-features = false, features = ["json"] }
serde = { version = "*", features = ["derive"] }
serde_json = "*"
thiserror = "*"
tokio = { version = "*", features = ["rt", "time", "macros"] }
tokio-tungstenite = { version = "*", default-features = false }
tracing = "*"
