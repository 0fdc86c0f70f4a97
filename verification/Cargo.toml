[package]
name = "vellum_fe"
version = "0.1.0"
edition = "2021"
publish = false

[dependencies]
regex = "=1.13.1"
sha1 = "=0.10.7"
arboard = { version = "=3.7.0", default-features = false }
serde = { version = "=1.0.229", features = ["derive"] }
toml = "=0.8.23"
toml_edit = "=0.22.27"
dirs = "=5.0.1"
anyhow = "=1.0.104"
