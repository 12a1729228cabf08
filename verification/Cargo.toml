[package]
name = "rust_cnc"
version = "0.1.0"
edition = "2021"
publish = false

[dependencies]
bmp = "*"
