[package]
name = "mocca_matrix"
version = "0.1.0"
edition = "2021"
publish = false

[dependencies]
smart-leds = "*"
num-traits = "*"
