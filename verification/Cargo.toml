[package]
name = "wt"
version = "0.1.0"
edition = "2021"
publish = false

[dependencies]
anyhow = "1"
clap = { version = "4", features = ["derive"] }
dirs = "5"
owo-colors = "4"
serde = { version = "1", features = ["derive"] }
shellexpand = "3"
toml = "0.8"
