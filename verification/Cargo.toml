[package]
name = "multiexp"
version = "0.1.0"
edition = "2021"
publish = false

[dependencies]
bit-vec = "=0.4.4"
futures = "=0.1.31"
num_cpus = "=1.17.0"
pairing = "=0.14.2"

[dev-dependencies]
rand = "=0.4.6"
