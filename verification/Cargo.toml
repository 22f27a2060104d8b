[package]
name = "fuda"
version = "0.1.0"
edition = "2021"
publish = false

[dependencies]
nvim-oxi = "0.6.0"
tane = "0.1.0"
