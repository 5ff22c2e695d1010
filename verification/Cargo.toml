[package]
name = "raytrace"
version = "0.1.0"
edition = "2021"

[dependencies]
rand = "0.8"
image = { version = "0.24", default-features = false, features = ["png"] }
rayon = "1"
