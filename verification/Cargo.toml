[package]
name = "tachibana"
version = "0.1.0"
edition = "2021"
publish = false

[dependencies]
ash = "=0.31.0"
gstreamer = "=0.16.7"
sdl2 = "=0.34.2"
skulpin-renderer = "=0.5.2"
skulpin-renderer-sdl2 = "=0.5.1"
