[package]
name = "git_stats"
version = "0.1.0"
edition = "2021"
publish = false

[dependencies]
git2 = "=0.21.0"
chrono = "=0.4.45"
clap = { version = "=4.6.7", features = ["derive"] }
colored = "=3.1.1"
walkdir = "=2.5.0"
tokei = "*"
