[package]
name = "iocraft"
version = "0.1.0"
edition = "2021"
publish = false

[dependencies]
crossterm = "0.28"
futures = "0.3"
taffy = "*"
unicode-segmentation = "1"
unicode-width = "0.2"
