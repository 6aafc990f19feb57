[package]
name = "binance_quote_bridge"
version = "0.1.0"
edition = "2021"
publish = false

[dependencies]
async-trait = "0.1"
chrono = "0.4"
futures = "0.3"
hyper = { version = "0.14", features = ["server", "http1", "tcp", "runtime"] }
prometheus = { version = "0.13", default-features = false }
serde = { version = "1", features = ["derive"] }
serde_json = "1"
substring = "1"
tokio = { version = "1", features = ["full"] }
tokio-tungstenite = "0.16"
