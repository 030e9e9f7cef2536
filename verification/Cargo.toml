[package]
name = "termusic_core"
version = "0.1.0"
edition = "2021"
publish = false

[dependencies]
pinyin = "=0.11.0"
rusqlite = { version = "=0.40.2", features = ["bundled"] }
walkdir = "*"
anyhow = "=1.0.104"
async-channel = "=2.5.0"
parking_lot = "=0.12.5"
