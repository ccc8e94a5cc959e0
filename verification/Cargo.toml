[package]
name = "dan_core_n"
version = "0.1.0"
edition = "2021"
publish = false

[dependencies]
priority-queue = "*"
enumset = "*"
nalgebra = "*"
nalgebra-glm = "*"
target-features = "*"
multiversion = "*"
