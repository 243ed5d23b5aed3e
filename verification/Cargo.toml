[package]
name = "pathtracer"
version = "0.1.0"
edition = "2021"
publish = false

[dependencies]
rand = "0.7"
num_cpus = "1"
crossbeam = "0.7"
image = "0.22"
