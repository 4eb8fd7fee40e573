[package]
name = "file_explorer"
version = "0.1.0"
edition = "2021"
publish = false

[dependencies]
ratatui = "*"
tokio = { version = "*", features = ["rt", "fs", "time"] }
