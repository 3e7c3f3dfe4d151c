[package]
name = "nexia_core"
version = "0.1.0"
edition = "2021"
publish = false

[dependencies]
chrono = { version = "0.4", features = ["serde"] }
serde = { version = "1", features = ["derive"] }
serde_json = "1"
thiserror = "1"
uuid = { version = "1", features = ["v4", "serde"] }
tauri = { version = "2", default-features = false, features = ["wry"] }
tauri-plugin-fs = "2"
