[package]
name = "peerlab_gateway"
version = "0.1.0"
edition = "2021"
publish = false

[dependencies]
sha2 = "0.10"
hex = "0.4"
ipnet = "2"
jsonwebtoken = "9"
serde = { version = "1", features = ["derive"] }
serde_json = "1"
axum = "0.8"
tokio = { version = "1", features = ["rt-multi-thread", "macros", "net"] }
reqwest = { version = "0.12", default-features = false, features = ["json"] }
chrono = "0.4"
