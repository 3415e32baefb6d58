[package]
name = "folium"
version = "0.1.0"
edition = "2021"
publish = false

[dependencies]
clap = { version = "*", features = ["derive"] }
fontdb = "*"
fontdue = "*"
sdl2 = { version = "*", features = ["image"] }
