[package]
name = "herdr-starship"
version = "0.1.0"
edition = "2021"
publish = false

[dependencies]
ignore = "0.4"
notify = "8"
serde_json = "1"
toml = "0.9"
unicode-segmentation = "1"
unicode-width = "0.2"
