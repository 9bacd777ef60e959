[package]
name = "goosy"
version = "0.1.0"
edition = "2021"
publish = false

[dependencies]
anyhow = "=1.0.104"
clap = { version = "=4.6.7", features = ["derive"] }
indicatif = "=0.17.11"
quick-xml = "=0.37.5"
serde_json = "=1.0.154"
skia-safe = { version = "*", features = ["textlayout", "pdf"] }
