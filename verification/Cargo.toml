[package]
name = "buildsys"
version = "0.1.0"
edition = "2021"
publish = false

[dependencies]
toml = "0.8"
walkdir = "2"
clap = { version = "4", features = ["derive"] }
