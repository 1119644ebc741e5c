[package]
name = "translation_sync"
version = "0.1.0"
edition = "2021"
publish = false

[dependencies]
dirs = "*"
urlencoding = "*"
auto-launch = "*"
serde = { version = "*", features = ["derive"] }
serde_json = "*"
reqwest = { version = "*", default-features = false, features = ["blocking", "rustls-tls"] }
