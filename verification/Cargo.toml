[package]
name = "smallerpixels"
version = "0.1.0"
edition = "2021"
publish = false

[dependencies]
anyhow = "=1.0.104"
filetime = "=0.2.29"
image = { version = "=0.25.10", default-features = false, features = ["jpeg", "png", "gif", "bmp", "webp"] }
notify = "=8.2.1"
serde = { version = "=1.0.229", features = ["derive"] }
serde_json = "=1.0.154"
tokio = { version = "=1.54.1", features = ["rt-multi-thread", "macros", "sync", "time"] }
walkdir = "=2.5.0"
webp = "=0.3.1"
