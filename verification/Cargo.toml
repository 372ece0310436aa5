[package]
name = "bookrat"
version = "0.1.0"
edition = "2021"
publish = false

[dependencies]
anyhow = "1"
chrono = { version = "0.4", features = ["serde"] }
crossterm = "*"
epub = "*"
log = "0.4"
ratatui = "*"
serde = { version = "1", features = ["derive"] }
serde_json = "1"
simplelog = "*"
textwrap = "0.16"

[dev-dependencies]
regex = "1"
