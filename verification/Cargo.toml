[package]
name = "channels_console"
version = "0.1.0"
edition = "2021"
publish = false

[dependencies]
tokio = { version = "*", features = ["rt-multi-thread", "sync", "time", "macros"] }
crossbeam-channel = "*"
serde = { version = "*", features = ["derive"] }
serde_json = "*"
clap = { version = "*", features = ["derive"] }
ureq = { version = "*", features = ["json"] }
eyre = "*"
chrono = "*"
crossterm = "*"
ratatui = "*"
