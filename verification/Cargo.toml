[package]
name = "sprite_painter"
version = "0.1.0"
edition = "2021"
publish = false

[dependencies]
image = "0.24"
imageproc = "0.23"
rand = "0.8"
raster = "0.2"
