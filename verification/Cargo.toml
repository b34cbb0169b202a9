[package]
name = "sha256_air"
version = "0.1.0"
edition = "2021"
publish = false

[dependencies]
stwo = "*"
stwo-constraint-framework = "*"
itertools = "*"
num-traits = "*"
tracing = "*"
