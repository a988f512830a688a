[package]
name = "sprite_fight"
version = "0.1.0"
edition = "2021"
publish = false

[dependencies]
rand = "0.7"
sdl2 = { version = "0.34", features = ["image", "ttf"] }
rusttype = { version = "0.9", features = ["gpu_cache"] }
unicode-normalization = "0.1"
num_enum = "0.5"
