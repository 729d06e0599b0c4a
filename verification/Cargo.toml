[package]
name = "matmul"
version = "0.1.0"
edition = "2021"
publish = false

[dependencies]
array2d = "*"
rand = "*"
rayon = "*"
