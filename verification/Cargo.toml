[package]
name = "edge_hive"
version = "0.1.0"
edition = "2021"
publish = false

[dependencies]
libp2p = { version = "*", default-features = false, features = ["ed25519", "tokio", "tcp", "noise", "yamux", "mdns"] }
tokio = { version = "*", features = ["rt-multi-thread", "macros", "sync", "time", "io-util", "net"] }
serde = { version = "*", features = ["derive"] }
chrono = "*"
