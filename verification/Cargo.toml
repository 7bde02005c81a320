[package]
name = "rustify"
version = "0.1.0"
edition = "2021"
publish = false

[dependencies]
md5 = "0.7"
urlencoding = "2"
base64 = "0.22"
walkdir = "2"
lofty = "0.22"
reqwest = { version = "0.12", default-features = false, features = ["json", "rustls-tls"] }
tokio = { version = "1", features = ["time"] }
serde = { version = "1", features = ["derive"] }
serde_json = "1"
dirs = "5"
dotenvy = "0.15"
open = "5"
discord-rich-presence = "0.2"
