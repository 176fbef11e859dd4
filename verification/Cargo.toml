[package]
name = "coffee_points"
version = "0.1.0"
edition = "2021"
publish = false

[dependencies]
num_cpus = "*"
tracing = "*"
tracing-subscriber = "*"
