[package]
name = "git_rs"
version = "0.1.0"
edition = "2021"
publish = false

[dependencies]
anyhow = "1"
clap = { version = "4", features = ["derive"] }
flate2 = "1"
itertools = "0.10"
sha1 = "0.10"
thiserror = "1"
walkdir = "2"
