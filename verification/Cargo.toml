[package]
name = "deltaos"
version = "0.2.0"
edition = "2021"
publish = false

[dependencies]
bitflags = "2"
spin = "0.9"
