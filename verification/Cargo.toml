[package]
name = "dropkick"
version = "0.1.0"
edition = "2021"
publish = false

[dependencies]
crossterm = "*"
ratatui = "*"
serde = { version = "*", features = ["derive"] }
serde_yaml = "*"
syntect = "*"
two-face = "*"
