[package]
name = "re0inv"
version = "0.1.0"
edition = "2021"
publish = false

[dependencies]
flate2 = "1"
iced-x86 = "1"
