[package]
name = "cargo_changelog"
version = "0.1.0"
edition = "2021"
publish = false

[dependencies]
semver = "1"
toml = "0.8"
serde_yaml = "0.9"
serde = { version = "1", features = ["derive"] }
handlebars = "4"
walkdir = "2"
