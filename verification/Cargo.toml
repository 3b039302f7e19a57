[package]
name = "bittorrent"
version = "0.1.0"
edition = "2021"
publish = false

[dependencies]
clap = { version = "*", features = ["derive"] }
hex = "*"
reqwest = { version = "*", default-features = false }
serde = { version = "*", features = ["derive"] }
serde_bencode = "*"
serde_bytes = "*"
serde_json = "*"
serde_urlencoded = "*"
sha1 = "*"
tokio = { version = "*", features = ["full"] }
