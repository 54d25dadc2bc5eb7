[package]
name = "quicksort"
version = "0.1.0"
edition = "2021"

[dependencies]
lazy_static = "1"
rayon = "1"

[dev-dependencies]
rand = "0.8"
