[package]
name = "lattice"
version = "0.1.0"
edition = "2021"
publish = false

[dependencies]
anyhow = "1"
clap = { version = "4", features = ["derive"] }
dot_vox = "5"
glam = "0.29"
image = { version = "0.25", default-features = false, features = ["png"] }
palette = "0.7"
rand = { version = "0.8", features = ["small_rng"] }
rayon = "1"
