[package]
name = "roarsvg"
version = "0.1.0"
edition = "2021"
publish = false

[dependencies]
lyon_path = "1"
usvg = "0.35"
