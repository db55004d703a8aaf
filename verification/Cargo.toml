[package]
name = "calki"
version = "0.1.0"
edition = "2021"
publish = false

[dependencies]
unicode-width = "0.2"
jiff = "0.2"
crossterm = "0.29"
ratatui = "0.30"
serde = { version = "1", features = ["derive"] }
serde_json = "1"
ureq = { version = "2", default-features = false, features = ["json"] }
arboard = { version = "3", default-features = false }
