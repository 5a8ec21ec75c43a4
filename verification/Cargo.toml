[package]
name = "sgtop"
version = "0.1.0"
edition = "2021"
publish = false

[dependencies]
anyhow = "1"
clap = { version = "4", features = ["derive"] }
crossterm = "0.28"
ratatui = "0.29"
rustls = { version = "0.23", default-features = false, features = ["ring", "std", "tls12"] }
ureq = "2.12"
