[package]
name = "cargo_wipe"
version = "0.1.0"
edition = "2021"
publish = false

[dependencies]
num-format = "*"
number_prefix = "*"
yansi = "*"
