[package]
name = "manhuagui_downloader"
version = "0.1.0"
edition = "2021"
publish = false

[dependencies]
lz-str = "*"
tokio = { version = "*", features = ["sync", "rt-multi-thread", "macros", "time"] }
reqwest = { version = "*", default-features = false }
reqwest-middleware = "*"
reqwest-retry = "*"
serde = { version = "*", features = ["derive"] }
serde_json = "*"
anyhow = "*"
parking_lot = "*"
bytes = "*"
