[package]
name = "markup_reflow"
version = "0.1.0"
edition = "2021"
publish = false

[dependencies]
anyhow = "1"
nom = "7"
pretty = "0.12"
serde = { version = "1", features = ["derive"] }
