[package]
name = "edit0r"
version = "0.1.0"
edition = "2021"
publish = false

[dependencies]
tree-sitter = "=0.20.10"
tree-sitter-rust = "=0.20.4"
sdl2 = { version = "=0.35.2", features = ["ttf"] }
