[package]
name = "hashmin"
version = "0.1.0"
edition = "2021"
publish = false

[dependencies]
anyhow = "*"
clap = { version = "*", features = ["derive"] }
core_affinity = "*"
crossbeam = "*"
crossterm = "*"
hex = "*"
ratatui = "*"
sha2 = "*"
