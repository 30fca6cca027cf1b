[package]
name = "pathtracer"
version = "0.1.0"
edition = "2021"
publish = false

[dependencies]
clap = { version = "3.2", features = ["derive"] }
image = { version = "0.24", default-features = false, features = ["png", "jpeg"] }
num_cpus = "1"
obj = "0.10"
rand = "0.8"
