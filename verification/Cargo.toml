[package]
name = "address_formatter"
version = "0.1.0"
edition = "2021"
publish = false

[dependencies]
handlebars = "*"
regex = "*"
serde_json = "*"
yaml-rust = "*"
