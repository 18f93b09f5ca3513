[package]
name = "fiapo"
version = "0.1.0"
edition = "2021"
publish = false

[dependencies]
pdf2image = "*"
image = "*"
toml = "*"
serde = { version = "*", features = ["derive"] }
