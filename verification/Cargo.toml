[package]
name = "template_rs"
version = "0.1.0"
edition = "2021"
publish = false

[dependencies]
shellexpand = "*"
toml = "*"
serde = { version = "*", features = ["derive"] }
clap = { version = "*", features = ["derive"] }
