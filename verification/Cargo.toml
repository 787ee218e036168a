[package]
name = "color_conversion"
version = "0.1.0"
edition = "2021"
publish = false

[dependencies]
clap = "2"
colored = "2"
hex = "0.4"
itertools = "0.10"
