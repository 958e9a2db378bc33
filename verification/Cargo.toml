[package]
name = "cta_collectthemall"
version = "0.1.0"
edition = "2021"
publish = false

[dependencies]
serde = { version = "1", features = ["derive"] }
serde_json = "1"
reqwest = { version = "0.12", default-features = false, features = ["json", "rustls-tls"] }
tokio = { version = "1", features = ["fs", "sync", "rt", "rt-multi-thread", "macros"] }
rusqlite = { version = "0.37", features = ["bundled"] }
image = { version = "0.25", default-features = false, features = ["png", "jpeg"] }
