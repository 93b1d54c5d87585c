[package]
name = "tijarapos"
version = "0.1.0"
edition = "2021"
publish = false

[dependencies]
uuid = { version = "=1.29.1", features = ["v4"] }
argon2 = { version = "=0.5.3", features = ["std"] }
rusqlite = { version = "=0.32.1", features = ["bundled"] }
rust-embed = "=8.13.0"
serde = { version = "=1.0.229", features = ["derive"] }
thiserror = "=1.0.69"
log = "=0.4.35"
tauri = { version = "=2.12.5", default-features = false }
tauri-plugin-log = { version = "=2.10.1", default-features = false }
