[package]
name = "html_transpose"
version = "0.1.0"
edition = "2021"
publish = false

[dependencies]
scraper = "*"
