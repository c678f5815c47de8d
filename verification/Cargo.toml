[package]
name = "kestrel"
version = "0.1.0"
edition = "2021"
publish = false

[dependencies]
image = { version = "0.25", default-features = false, features = ["webp"] }
serde = { version = "1", features = ["derive"] }
dashmap = "6"
tokio = { version = "1", features = ["sync", "rt", "rt-multi-thread"] }
futures = "0.3"
reqwest = { version = "0.12", default-features = false, features = ["rustls-tls"] }
