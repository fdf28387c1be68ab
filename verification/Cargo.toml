[package]
name = "dockerignore"
version = "0.1.0"
edition = "2021"
publish = false

[dependencies]
glob = "*"
walkdir = "*"
clap = { version = "*", features = ["derive"] }
