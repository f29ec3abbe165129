[package]
name = "delve"
version = "0.1.0"
edition = "2021"
publish = false

[dependencies]
clap = { version = "4", features = ["derive"] }
clap_complete = "4"
crossterm = "*"
ctrlc = "*"
ratatui = "*"
serde = { version = "1", features = ["derive"] }
serde_json = "1"
