[package]
name = "fractastic"
version = "0.1.0"
edition = "2021"
publish = false

[dependencies]
docopt = "<0.8"
image = { version = "*", default-features = false, features = ["png"] }
num-complex = "*"
rand = "*"
rustc-serialize = "0.3"
