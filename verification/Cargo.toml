[package]
name = "valt"
version = "0.1.0"
edition = "2021"
publish = false

[dependencies]
serdevault = "*"
fuzzy-matcher = "*"
uuid = { version = "*", features = ["v4"] }
chrono = "*"
rand = "*"
arboard = "*"
crossterm = "*"
ratatui = "*"

[dev-dependencies]
tempfile = "*"
