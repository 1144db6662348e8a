[package]
name = "rust_sokoban"
version = "0.1.0"
edition = "2021"
publish = false

[dependencies]
itertools = "0.13"
ggez = { version = "0.9", default-features = false }
glam = { version = "0.24", features = ["mint"] }
