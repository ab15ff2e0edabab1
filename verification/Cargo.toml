[package]
name = "iptv_manager"
version = "0.1.0"
edition = "2021"
publish = false

[dependencies]
anyhow = "1"
chrono = { version = "0.4", default-features = false, features = ["std", "now", "serde"] }
dirs = "6"
eframe = { version = "0.29", default-features = false, features = ["default_fonts", "glow", "x11"] }
reqwest = { version = "0.12", default-features = false, features = ["blocking", "json", "native-tls"] }
serde = { version = "1", features = ["derive"] }
serde_json = "1"
sevenz-rust = { version = "0.6", default-features = false }
uuid = { version = "1", features = ["v4"] }
