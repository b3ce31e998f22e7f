[package]
name = "ppm"
version = "0.1.0"
edition = "2021"

[dev-dependencies]
nom = "7"
