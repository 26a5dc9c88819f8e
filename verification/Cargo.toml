[package]
name = "mcdougs"
version = "0.1.1"
edition = "2021"
publish = false

[dependencies]
anyhow = "1"
chrono = "0.4"
chrono-tz = "0.10"
clap = { version = "4", features = ["derive"] }
crossterm = "0.29"
image = { version = "0.25", default-features = false, features = ["jpeg", "png", "gif", "webp"] }
ratatui = "0.30"
ratatui-image = { version = "*", default-features = false, features = ["crossterm"] }
regex = "1"
reqwest = { version = "0.12", default-features = false, features = ["blocking", "rustls-tls"] }
scraper = "*"
serde = { version = "1", features = ["derive"] }
serde_json = "1"
webbrowser = "1"
