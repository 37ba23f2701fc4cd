[package]
name = "minmax_bot"
version = "0.1.0"
edition = "2021"
publish = false

[dependencies]
rayon = "1"
rand = "0.8"
console = "0.15"
thousands = "0.2"
