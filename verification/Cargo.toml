[package]
name = "primitive_dictionary"
version = "0.1.0"
edition = "2021"
publish = false

[dependencies]
arrow-array = "*"
arrow-buffer = "*"
arrow-schema = "*"
bytes = "1"
