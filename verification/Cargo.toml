[package]
name = "weekend_path_tracer"
version = "0.1.0"
edition = "2021"
publish = false

[dependencies]
rand = "*"
image = "*"
indicatif = "*"
minifb = "*"
rayon = "*"
