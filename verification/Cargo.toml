[package]
name = "movefmt"
version = "0.1.0"
edition = "2021"
publish = false

[dependencies]
move-compiler = "0.0.0"
