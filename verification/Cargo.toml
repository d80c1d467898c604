[package]
name = "svg_splitter"
version = "0.1.0"
edition = "2021"
publish = false

[dependencies]
ori = { version = "=0.1.0-alpha.1", default-features = false }
rfd = { version = "0.14", default-features = false }
