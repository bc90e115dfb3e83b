[package]
name = "oops"
version = "0.1.0"
edition = "2021"
publish = false

[dependencies]
shell-words = "1"
serde = { version = "1", features = ["derive"] }
serde_json = "1"
rusqlite = "*"
reflink-copy = "*"
clap = { version = "4", features = ["derive"] }
tokio = { version = "1", features = ["full"] }
tracing = "0.1"
tracing-subscriber = "0.3"
sd-notify = "*"
crossterm = "*"
ratatui = "*"
