[package]
name = "gfx_assets"
version = "0.1.0"
edition = "2021"
publish = false

[dependencies]
gl = "=0.14.0"
glm = "=0.2.3"
glutin = "0.29"
