[package]
name = "kabsch_umeyama"
version = "0.1.0"
edition = "2021"
publish = false

[dependencies]
nalgebra = "*"
nalgebra-lapack = "*"
