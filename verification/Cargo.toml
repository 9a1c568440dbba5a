[package]
name = "chess_search"
version = "0.1.0"
edition = "2021"
publish = false

[dependencies]
pleco = "0.5"
rand = "0.9"
