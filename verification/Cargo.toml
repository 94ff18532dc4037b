[package]
name = "ecc_primitives"
version = "0.1.0"
edition = "2021"
publish = false

[dependencies]
mod_exp = "*"
num = "*"
