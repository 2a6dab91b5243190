[package]
name = "static_site"
version = "0.1.0"
edition = "2021"
publish = false

[dependencies]
rocket = "*"
