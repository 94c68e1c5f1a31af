[package]
name = "mad"
version = "0.1.0"
edition = "2021"
publish = false

[dependencies]
anyhow = "1"
chrono = "0.4"
clap = { version = "4", features = ["derive"] }
crossterm = "0.28"
dialoguer = { version = "0.11", features = ["fuzzy-select"] }
dirs = "5"
ratatui = "0.29"
serde = { version = "1", features = ["derive"] }
serde_json = "1"
serde_yaml = "0.9"
slug = "0.1"
toml = "0.8"
tui-textarea = "0.7"
