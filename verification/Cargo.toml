[package]
name = "duplicate_engine"
version = "0.1.0"
edition = "2021"
publish = false

[dependencies]
humansize = "2"
rayon = "1"
biff = "*"
