[package]
name = "duckdns-updater"
version = "0.1.0"
edition = "2021"
publish = false

[dependencies]
serde = { version = "1", features = ["derive"] }
serde_json = "1"
ureq = "2"
chrono = "0.4"
dirs = "5"
image = { version = "0.25", default-features = false, features = ["ico", "png"] }
notify-rust = { version = "4", default-features = false }
winreg = "0.52"
winapi = { version = "0.3", features = ["winuser"] }
