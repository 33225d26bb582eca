[package]
name = "zsm"
version = "0.1.0"
edition = "2021"
publish = false

[dependencies]
unicode-segmentation = "1"
unicode-width = "0.2"
humantime = "2"
fuzzy-matcher = "0.3"
uuid = { version = "1", features = ["v4"] }
zellij-tile = "*"
