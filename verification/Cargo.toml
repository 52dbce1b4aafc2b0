[package]
name = "pathtracer"
version = "0.1.0"
edition = "2021"
publish = false

[dependencies]
rand = "0.8"
byteorder = "1"
ndarray = "0.15"
nalgebra = "0.32"
