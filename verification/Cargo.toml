[package]
name = "stl_parser"
version = "0.1.0"
edition = "2021"
publish = false

[dependencies]
rustc_apfloat = "*"
astro-float = "*"
anyhow = "1"
clap = { version = "4", features = ["derive"] }
