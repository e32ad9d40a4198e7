[package]
name = "cairo_fuzz"
version = "0.1.0"
edition = "2021"
publish = false

[dependencies]
starknet-types-core = "*"
num-bigint = "*"
cairo-vm = "*"
