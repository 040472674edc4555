[package]
name = "kmlcli"
version = "0.3.0"
edition = "2021"
publish = false

[dependencies]
clap = { version = "4", features = ["derive"] }
color-eyre = "0.6"
crossterm = "*"
ctrlc = "3"
flate2 = "1"
kml = "*"
lru = "*"
prost = "*"
ratatui = "*"
reqwest = { version = "0.12", default-features = false, features = ["blocking", "rustls-tls"] }
serde = { version = "1", features = ["derive"] }
serde_json = "1"
