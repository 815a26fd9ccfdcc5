[package]
name = "gtensor"
version = "0.1.0"
edition = "2021"
publish = false

[dependencies]
half = { version = "*", features = ["num-traits"] }
num-traits = "*"
rayon = "*"
