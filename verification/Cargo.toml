[package]
name = "tetris"
version = "0.1.0"
edition = "2021"
publish = false

[dependencies]
lazy_static = "1"
piston_window = "*"
rand = "0.8"
