[package]
name = "padsound"
version = "0.1.0"
edition = "2021"
publish = false

[dependencies]
anyhow = "=1.0.104"
clap = { version = "=4.6.7", features = ["derive"] }
cpal = "=0.18.2"
crossbeam-channel = "=0.5.17"
crossterm = "=0.29.0"
midir = "=0.11.1"
ratatui = "=0.30.2"
serde = { version = "=1.0.229", features = ["derive"] }
symphonia = { version = "=0.5.5", features = ["all"] }
toml = "=0.8.23"
