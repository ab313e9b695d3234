[package]
name = "jumpcut"
version = "0.1.0"
edition = "2021"
publish = false

[dependencies]
unicode_categories = "*"
serde = { version = "*", features = ["derive"] }
serde_json = "*"
handlebars = "*"
