[package]
name = "claudex_bridge"
version = "1.0.0"
edition = "2021"
publish = false

[dependencies]
anyhow = "1"
rand = "0.9"
reqwest = { version = "0.12", default-features = false, features = ["json", "rustls-tls"] }
serde = { version = "1", features = ["derive"] }
serde_json = { version = "1", features = ["raw_value"] }
sha2 = "0.10"
thiserror = "2"
tokio = { version = "1", features = ["sync", "time", "rt", "macros"] }
