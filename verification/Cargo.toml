[package]
name = "herdr-remote-download"
version = "0.1.0"
edition = "2021"
publish = false

[dependencies]
anyhow = "1"
base64 = "0.22"
clap = { version = "4", features = ["derive", "env"] }
crossterm = "0.28"
flate2 = "1"
ratatui = "0.29"
regex = "1"
serde_json = "1"
sha2 = "0.11"
tar = "0.4"
