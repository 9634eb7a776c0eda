[package]
name = "friend_dist"
version = "0.1.0"
edition = "2021"
publish = false

[dependencies]
magic-crypt = "*"
chrono = "*"
serde = { version = "*", features = ["derive"] }
serde_json = "*"
tokio = { version = "*", features = ["rt-multi-thread", "macros", "time", "sync", "net"] }
tokio-tungstenite = "*"
futures-util = "*"
reqwest = { version = "*", default-features = false, features = ["rustls-tls"] }
