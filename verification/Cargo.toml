[package]
name = "hgrep"
version = "0.1.0"
edition = "2021"
publish = false

[dependencies]
anyhow = "*"
memchr = "*"
rgb2ansi256 = "*"
unicode-width = "*"
