[package]
name = "gww"
version = "0.1.0"
edition = "2021"
publish = false

[dependencies]
anyhow = "=1.0.104"
clap = { version = "=4.6.7", features = ["derive"] }
console = "=0.15.11"
dialoguer = { version = "=0.11.0", features = ["fuzzy-select"] }
