[package]
name = "kdlgen"
version = "0.1.0"
edition = "2021"
publish = false

[dependencies]
rand = "*"
rand_chacha = "*"
rand_regex = "*"
regex-syntax = "*"
clap = { version = "*", features = ["derive"] }
