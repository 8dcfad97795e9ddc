[package]
name = "decontam"
version = "0.1.0"
edition = "2021"
publish = false

[dependencies]
unicode-segmentation = "*"
serde_json = "*"
clap = { version = "*", features = ["derive"] }
rayon = "*"
anyhow = "*"
