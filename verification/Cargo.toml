[package]
name = "game_settings_master"
version = "0.1.0"
edition = "2021"
publish = false

[dependencies]
serde = { version = "1", features = ["derive"] }
serde_json = "1"
sha2 = "0.10"
regex = "1"
chrono = "0.4"
dirs = "5"
walkdir = "2"
ureq = { version = "2", default-features = false }
zip = { version = "2", default-features = false, features = ["deflate"] }
winreg = "0.52"

[dev-dependencies]
tempfile = "3"
uuid = { version = "1", features = ["v4"] }
