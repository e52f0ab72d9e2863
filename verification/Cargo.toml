[package]
name = "artixide"
version = "0.1.0"
edition = "2021"
publish = false

[dependencies]
bytesize = "1"
indexmap = "2"
itoap = "1"
gptman = { version = "1", default-features = false }
serde = { version = "1", features = ["derive"] }
serde_json = "1"
crossterm = "0.27"
ratatui = "0.23"
color-eyre = "0.6"
log = "0.4"
regex = "1"
walkdir = "2"
once_cell = "1"
unicode-width = "0.1"
fuzzy-matcher = "0.3"
sudo = "0.6"
scopeguard = "1"
tui-logger = "0.9"
