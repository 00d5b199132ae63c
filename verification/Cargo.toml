[package]
name = "miru"
version = "0.1.0"
edition = "2021"
publish = false

[dependencies]
pulldown-cmark = { version = "*", default-features = false }
fuzzy-matcher = "*"
ratatui = "*"
crossterm = "*"
clap = { version = "4", features = ["derive"] }
terminal-light = "*"
