[package]
name = "perlin_noise"
version = "0.1.0"
edition = "2021"
publish = false

[dependencies]
ndarray = "*"

[dev-dependencies]
itertools = "*"
