[package]
name = "sandpile"
version = "0.1.0"
edition = "2021"
publish = false

[dependencies]
rustc-hash = "2"
rand = "0.9"
image = { version = "0.25", default-features = false, features = ["png", "tiff"] }
