[package]
name = "tau"
version = "0.1.0"
edition = "2021"
publish = false

[dependencies]
crossterm = "*"
dirs = "*"
libc = "*"
nickel-lang = "*"
serde = { version = "1", features = ["derive"] }
serde_json = "1"
tungstenite = "*"
unicode-width = "*"
