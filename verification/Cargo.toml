[package]
name = "zk-tui"
version = "0.1.0"
edition = "2021"
publish = false

[dependencies]
unicode-width = "0.2"
pulldown-cmark = { version = "0.13", default-features = false }
ratatui = "0.29"
crossterm = "0.28"
