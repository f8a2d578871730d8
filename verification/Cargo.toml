[package]
name = "norma"
version = "0.1.0"
edition = "2021"
publish = false

[dependencies]
indexmap = "*"
num-bigint = "*"
num-traits = "*"
