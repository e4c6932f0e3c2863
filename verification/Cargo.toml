[package]
name = "m4b-extractor"
version = "0.1.0"
edition = "2021"
publish = false

[dependencies]
anyhow = "1"
clap = { version = "4", features = ["derive"] }
rayon = "1"
regex = "1"
serde_json = "1"
serde_yaml = "0.9"
which = "*"
