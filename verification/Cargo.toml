[package]
name = "parallel"
version = "0.8.0"
edition = "2021"
publish = false

[dependencies]
arrayvec = "0.7"
permutate = "=0.2.0"
num_cpus = "=1.17.0"
wait-timeout = "=0.1.5"
