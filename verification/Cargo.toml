[package]
name = "rust_app_sample"
version = "0.1.0"
edition = "2021"
publish = false

[dependencies]
libloading = "0.8"
mlua = { version = "0.10", features = ["lua54", "vendored"] }
walkdir = "2"
