[package]
name = "sluuz"
version = "0.1.0"
edition = "2021"
publish = false

[dependencies]
clap = { version = "*", features = ["derive"] }
colored = "*"
ratatui = "*"
rayon = "*"
syntect = { version = "*", default-features = false, features = ["default-fancy"] }
terminal_size = "*"
walkdir = "*"
