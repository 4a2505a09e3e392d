[package]
name = "catch_mouse"
version = "0.1.0"
edition = "2021"
publish = false

[dependencies]
sdl2 = { version = "*", features = ["ttf"] }
