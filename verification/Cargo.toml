[package]
name = "typst"
version = "0.1.0"
edition = "2021"
publish = false

[dependencies]
ecow = "*"
fxhash = "*"
serde = { version = "*", features = ["derive"] }
ttf-parser = "*"
