[package]
name = "libm_ext"
version = "0.1.0"
edition = "2021"
publish = false

[dependencies]
hexf = "0.2"
pyo3 = "0.23"
numpy = "0.23"
rayon = "1"
num_cpus = "1"
paste = "1"
