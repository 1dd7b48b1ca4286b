[package]
name = "engine"
version = "0.1.0"
edition = "2021"
publish = false

[dependencies]
bitvec = "1"
clap = { version = "4", features = ["derive"] }
futures-util = "0.3"
log = "0.4"
serde = { version = "1", features = ["derive"] }
serde_json = "1"
simple_logger = "*"
tokio = { version = "1", features = ["full"] }
tokio-tungstenite = "*"
