[package]
name = "sample_render"
version = "0.1.0"
edition = "2021"
publish = false

[dependencies]
rand = "0.8"
rand_xoshiro = "0.6"
num_cpus = "1"
crossbeam-channel = "0.5"
crossbeam-utils = "0.8"
log = "0.4"
