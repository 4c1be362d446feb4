[package]
name = "usb_resolver"
version = "0.1.0"
edition = "2021"
publish = false

[dependencies]
anyhow = "*"
crossbeam-channel = "*"
crossterm = "*"
log = "*"
ratatui = "*"
serde = { version = "*", features = ["derive"] }
serde_json = "*"
