[package]
name = "nyx_lang"
version = "0.1.0"
edition = "2021"
publish = false

[dependencies]
miette = { version = "7", features = ["fancy"] }
thiserror = "2"
