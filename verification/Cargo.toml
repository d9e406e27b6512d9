[package]
name = "sparse_modeling"
version = "0.1.0"
edition = "2021"

[dependencies]
anyhow = "1"
csv = "1"
ndarray = "0.15"
ndarray-linalg = "0.16"
rand = "0.8"
