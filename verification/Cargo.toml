[package]
name = "num_ru"
version = "0.1.0"
edition = "2021"
publish = false

[dependencies]
ndarray = "*"
rayon = "*"
crossbeam = "*"
num-traits = "*"
rand = "*"

[dev-dependencies]
chrono = "*"
