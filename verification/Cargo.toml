[package]
name = "prima_undine_opencl"
version = "0.1.0"
edition = "2021"
publish = false

[dependencies]
ocl-core = "=0.11.5"
rand = "=0.8.8"
