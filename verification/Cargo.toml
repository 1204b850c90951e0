[package]
name = "raytracer"
version = "0.1.0"
edition = "2021"
publish = false

[dependencies]
rand = "0.8"
image = "0.24"
rayon = "1"
lazy_static = "1"
json = "0.12"
indicatif = "0.17"
tokio = { version = "1", features = ["rt-multi-thread"] }
