[package]
name = "repocat"
version = "0.1.0"
edition = "2021"
publish = false

[dependencies]
chrono = "*"
globset = "*"
git2 = "*"
clap = { version = "*", features = ["derive"] }
