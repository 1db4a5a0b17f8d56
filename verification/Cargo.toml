[package]
name = "json_parser"
version = "0.1.0"
edition = "2021"
publish = false

[dependencies]
criterion = { version = "0.5", default-features = false }
json = "0.12"
ureq = { version = "2", default-features = false }
