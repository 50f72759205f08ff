[package]
name = "dungeon_crawl"
version = "0.1.0"
edition = "2021"
publish = false

[dependencies]
bracket-lib = "=0.8.7"
legion = "=0.4.0"
ron = "=0.8.1"
serde = { version = "=1.0.229", features = ["derive"] }
