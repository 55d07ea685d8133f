[package]
name = "polyscan"
version = "0.1.0"
edition = "2021"
publish = false

[dependencies]
sdl2 = "*"
