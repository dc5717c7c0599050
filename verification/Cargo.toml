[package]
name = "expdel"
version = "0.1.0"
edition = "2021"
publish = false

[dependencies]
chrono = "*"
itertools = "*"
clap = { version = "*", features = ["derive"] }
walkdir = "*"
