[package]
name = "composer_completion"
version = "0.1.0"
edition = "2021"
publish = false

[dependencies]
serde_json = "*"
walkdir = "*"
rayon = "*"
anyhow = "*"
