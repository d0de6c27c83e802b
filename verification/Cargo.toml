[package]
name = "chat_server"
version = "0.1.0"
edition = "2021"
publish = false

[dependencies]
regex = "1"
linkify = "*"
serde = { version = "1", features = ["derive"] }
serde_json = "1"
tokio = { version = "1", features = ["full"] }
tokio-stream = { version = "0.1", features = ["sync"] }
tokio-tungstenite = "0.20"
tungstenite = "0.20"
tokio-native-tls = "0.3"
native-tls = "0.2"
futures = "0.3"
futures-util = "0.3"
async-stream = "0.3"
async-trait = "0.1"
reqwest = "0.11"
signal-hook = "0.3"
signal-hook-tokio = { version = "0.3", features = ["futures-v0_3"] }
sqlx = { version = "0.7", default-features = false, features = ["sqlite", "runtime-tokio"] }
sodiumoxide = "0.2"
anyhow = "1"
thiserror = "1"
boolinator = "2"
lazy_static = "1"
multi-map = "1"
