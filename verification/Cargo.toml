[package]
name = "pomo_tui"
version = "0.1.0"
edition = "2021"
publish = false

[dependencies]
uuid = { version = "*", features = ["v4"] }
chrono = "*"
anyhow = "*"
crossterm = "*"
ratatui = "*"
tui-big-text = "*"
notify-rust = "*"
dirs = "*"
