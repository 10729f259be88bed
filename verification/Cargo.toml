[package]
name = "loop_tasks"
version = "0.1.0"
edition = "2021"
publish = false

[dependencies]
uuid = { version = "*", features = ["v7", "serde"] }
jiff = { version = "*", features = ["serde"] }
serde = { version = "*", features = ["derive"] }
serde_json = "*"
toml = "*"
ratatui = "*"
crossterm = "*"
directories = "*"
clap = { version = "*", features = ["derive"] }
eyre = "*"
color-eyre = "*"
ansi-to-tui = "*"
