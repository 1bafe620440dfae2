[package]
name = "edgy"
version = "0.1.0"
edition = "2021"
publish = false

[dependencies]
embedded-graphics = "*"
eg-seven-segment = "*"
micromath = "*"
