[package]
name = "velvet_noise"
version = "0.1.0"
edition = "2021"
publish = false

[dependencies]
rand = { version = "=0.7.3", features = ["small_rng"] }
hound = "=3.5.1"
sample = "=0.10.0"
