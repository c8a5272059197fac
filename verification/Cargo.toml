[package]
name = "sonora"
version = "0.1.0"
edition = "2021"
publish = false

[dependencies]
sha2 = "0.10"
base64 = "0.22"
rand = "0.8"
urlencoding = "2"
pinyin = "0.10"
lindera = { version = "*", features = ["embedded-ipadic"] }
serde = { version = "1", features = ["derive"] }
serde_json = "1"
reqwest = { version = "0.12", default-features = false, features = ["blocking", "json", "rustls-tls"] }
rusqlite = { version = "*", features = ["bundled"] }
lofty = "*"
walkdir = "2"
chrono = "0.4"
