[package]
name = "trop"
version = "0.1.0"
edition = "2021"
publish = false

[dependencies]
faer = "0.21"
lapack = "*"
lapack-src = "*"
ndarray = "0.15"
rand = "0.8"
rand_xoshiro = "0.6"
rayon = "1"
thiserror = "1"
