[package]
name = "array_lang"
version = "0.1.0"
edition = "2021"
publish = false

[dependencies]
anyhow = "1"
itertools = "*"
num-traits = "0.2"
