[package]
name = "codeg"
version = "0.1.0"
edition = "2021"
publish = false

[dependencies]
dirs = "=7.0.0"
which = "=8.0.6"
tokio = { version = "=1.54.1", features = ["process"] }
tauri = { version = "2", default-features = false }
tauri-plugin-global-shortcut = "2"
sea-orm = { version = "1", default-features = false }
