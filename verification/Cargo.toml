[package]
name = "rust_shaders"
version = "0.1.0"
edition = "2021"
publish = false

[dependencies]
logos = "0.12"
thiserror = "1"
