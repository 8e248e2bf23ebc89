[package]
name = "spin_bridge"
version = "0.1.0"
edition = "2021"
publish = false

[dependencies]
tokio = { version = "1", default-features = false, features = ["sync"] }
uuid = { version = "1", features = ["v4"] }
levenshtein = "1"
url = "2"
