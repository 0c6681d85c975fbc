[package]
name = "gouache"
version = "0.1.0"
edition = "2021"
publish = false

[dependencies]
ttf-parser = "*"
gl = "0.14"
glutin = "0.26"
