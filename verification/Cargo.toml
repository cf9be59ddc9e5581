[package]
name = "dotr"
version = "0.1.0"
edition = "2021"
publish = false

[dependencies]
anyhow = "=1.0.104"
clap = { version = "=4.6.7", features = ["derive"] }
regex = "=1.13.1"
serde = { version = "=1.0.229", features = ["derive"] }
tera = { version = "=1.20.1", default-features = false }
toml = "=0.8.23"
walkdir = "=2.5.0"
