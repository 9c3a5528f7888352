[package]
name = "fractal_tree"
version = "0.1.0"
edition = "2021"
publish = false

[dependencies]
nalgebra = "0.33"
yaml-rust = "0.4"
