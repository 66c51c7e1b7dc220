[package]
name = "orgstand"
version = "0.1.0"
edition = "2021"
publish = false

[dependencies]
anyhow = "1"
chrono = "0.4"
crossterm = "0.28"
orgize = "0.9"
ratatui = "0.29"
tui-textarea = "0.7"
