[package]
name = "video_downloader"
version = "0.1.0"
edition = "2021"
publish = false

[dependencies]
dirs = "6"
serde = { version = "1", features = ["derive"] }
serde_json = "1"
tauri = { version = "2", default-features = false }
tauri-plugin-dialog = { version = "2", default-features = false }
