[package]
name = "pngblur"
version = "0.1.0"
edition = "2021"
publish = false

[dependencies]
miniz_oxide = "*"
crc32fast = "*"
