[package]
name = "tuiwindow"
version = "0.1.0"
edition = "2021"
publish = false

[dependencies]
ratatui = "0.26"
crossterm = "0.27"
uuid = { version = "1", features = ["v4"] }
