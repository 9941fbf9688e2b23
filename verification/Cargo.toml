[package]
name = "roughtime_keys"
version = "0.1.0"
edition = "2021"
publish = false

[dependencies]
byteorder = "=1.5.0"
ring = "=0.17.14"
time = "=0.1.45"
