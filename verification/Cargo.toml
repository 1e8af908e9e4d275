[package]
name = "eternity_ii"
version = "0.1.0"
edition = "2021"
publish = false

[dependencies]
anyhow = "1"
bitvec = "1"
num-format = { version = "0.4", features = ["with-system-locale"] }
rayon = "1"
