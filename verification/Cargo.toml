[package]
name = "rum_framework"
version = "0.1.0"
edition = "2021"
publish = false

[dependencies]
mime = "0.3"
mime_guess = "2"
tera = "1"
