[package]
name = "stl_base"
version = "0.1.0"
edition = "2021"
publish = false

[dependencies]
thiserror = "*"
miette = { version = "*", features = ["fancy"] }
reedline = "*"

[dev-dependencies]
logos = "*"
