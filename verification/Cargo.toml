[package]
name = "xorstream"
version = "0.1.0"
edition = "2021"
publish = false

[dependencies]
anyhow = "*"
atty = "*"
clap = { version = "*", features = ["derive"] }
crossterm = "*"
hex = "*"
walkdir = "*"
