[package]
name = "tstring_html"
version = "0.1.0"
edition = "2021"
publish = false

[dependencies]
tstring-syntax = "*"
unicode-width = "*"
pyo3 = "0.27"
