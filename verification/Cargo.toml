[package]
name = "mosaic"
version = "0.1.0"
edition = "2021"
publish = false

[dependencies]
argh = "*"
crossterm = "*"
image = "*"
