[package]
name = "nvvm_codegen"
version = "0.1.0"
edition = "2021"
publish = false

[dependencies]
find_cuda_helper = "*"
tracing = "0.1"
