[package]
name = "nts_radio"
version = "0.1.0"
edition = "2021"
publish = false

[dependencies]
minimp3 = "0.5"
serde_json = "1"
rodio = { version = "0.20", default-features = false }
reqwest = { version = "0.12", features = ["blocking"] }
ratatui = "0.29"
crossterm = "0.28"
tempfile = "3"
