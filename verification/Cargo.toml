[package]
name = "lazytickets"
version = "0.1.0"
edition = "2021"
publish = false

[dependencies]
anyhow = "1"
directories = "6"
fuzzy-matcher = "0.3"
image = { version = "0.25", default-features = false, features = ["png", "jpeg", "gif", "webp"] }
pulldown-cmark = "0.13"
ratatui = "0.29"
ratatui-image = "8"
serde = { version = "1", features = ["derive"] }
serde_json = "1"
tokio = { version = "1", features = ["full"] }
toml = "0.8"
unicode-width = "0.2"
ureq = "2"
