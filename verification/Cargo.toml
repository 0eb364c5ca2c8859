[package]
name = "mandelbrot"
version = "0.1.0"
edition = "2021"
publish = false

[dependencies]
num = "*"
crossbeam = "*"
num_cpus = "*"
image = { version = "*", default-features = false, features = ["png"] }
