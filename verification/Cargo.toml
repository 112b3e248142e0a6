[package]
name = "render_core"
version = "0.1.0"
edition = "2021"
publish = false

[dependencies]
image = "0.23"
ash = "0.31"
nalgebra-glm = "0.8"
