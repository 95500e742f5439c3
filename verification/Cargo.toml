[package]
name = "rushdown_footnote"
version = "0.1.0"
edition = "2021"
publish = false

[dependencies]
rushdown = "*"
