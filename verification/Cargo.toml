[package]
name = "raytracer_weekend_lib"
version = "0.1.0"
edition = "2021"
publish = false

[dependencies]
rand = { version = "0.8", features = ["small_rng"] }
image = { version = "0.24", default-features = false, features = ["png", "jpeg"] }
rayon = "1"
clap = { version = "4", features = ["derive"] }
indicatif = { version = "0.17", features = ["rayon"] }
wavefront_obj = "*"
itertools = "0.10"
serde = { version = "1", features = ["derive"] }
serde_json = "1"
serde_yaml = "0.9"
typetag = "0.2"
dyn-clone = "1"
