[package]
name = "cubefx_engine"
version = "0.1.0"
edition = "2021"
publish = false

[dependencies]
cubecl = { version = "=0.9.0", default-features = false, features = ["std", "stdlib"] }
