[package]
name = "hullwhite"
version = "0.1.0"
edition = "2021"
publish = false

[dependencies]
libm = "*"
ndarray = "*"
ndarray-linalg = "*"
rand = "*"
rand_distr = "*"
rayon = "*"
