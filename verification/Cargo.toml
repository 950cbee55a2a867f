[package]
name = "grok_team"
version = "0.1.0"
edition = "2021"
publish = false

[dependencies]
serde = { version = "=1.0.229", features = ["derive"] }
serde_json = "=1.0.154"
schemars = "=1.2.3"
thiserror = "=2.0.21"
crossterm = "=0.29.0"
ratatui = "=0.30.2"
toml = "*"
