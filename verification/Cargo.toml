[package]
name = "meson_analyzer"
version = "0.1.0"
edition = "2021"
publish = false

[dependencies]
clap = { version = "=4.5.61", features = ["derive"] }
tree-sitter = "=0.20.10"
