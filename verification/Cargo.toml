[package]
name = "vcs"
version = "0.1.0"
edition = "2021"
publish = false

[dependencies]
anyhow = "1"
array_tool = "1"
chrono = "0.4"
clap = { version = "4", features = ["derive"] }
hex = "0.4"
serde = { version = "1", features = ["derive"] }
serde_json = "1"
sha1 = "0.10"
thiserror = "1"
walkdir = "2"
