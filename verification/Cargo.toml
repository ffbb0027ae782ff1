[package]
name = "scribe"
version = "0.1.0"
edition = "2021"
publish = false

[dependencies]
unicode-segmentation = "1"
syntect = { version = "5", default-features = false, features = ["parsing", "default-syntaxes", "regex-fancy", "yaml-load"] }
