[package]
name = "notion_tui"
version = "0.1.0"
edition = "2021"
publish = false

[dependencies]
unicode-segmentation = "1"
unicode-width = "0.2"
similar = "2"
toml = "0.8"
serde_json = "1"
crossterm = "0.28"
ratatui = "0.29"
anyhow = "1"
dirs = "5"
keyring = "3"
tempfile = "3"
tokio = { version = "1", features = ["full"] }
futures = "0.3"
once_cell = "1"
syntect = { version = "5", default-features = false, features = ["default-fancy"] }
