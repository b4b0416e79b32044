[package]
name = "uninvited"
version = "0.1.0"
edition = "2021"
publish = false

[dependencies]
rand = "0.8"
serde = { version = "1", features = ["derive"] }
serde_json = "1"
tokio = { version = "1", features = ["sync", "time", "rt", "macros"] }
dirs = "5"
libc = "0.2"
tauri = { version = "2", default-features = false }
