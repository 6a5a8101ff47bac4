[package]
name = "arcaea"
version = "0.1.0"
edition = "2021"
publish = false

[dependencies]
crossterm = "*"
terminal-clipboard = "*"
unicode-segmentation = "*"
unicode-width = "*"
