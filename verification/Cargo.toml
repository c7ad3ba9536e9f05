[package]
name = "comunicacao"
version = "0.1.0"
edition = "2021"
publish = false

[dependencies]
ratatui = "0.28"
crossterm = "0.28"
serde = { version = "1", features = ["derive"] }
serde_json = "1"
rand = "0.8"
local-ip-address = "0.6"
