[package]
name = "nexaos"
version = "0.1.0"
edition = "2021"
publish = false

[dependencies]
spin = "0.9"
multiboot2 = "*"
font8x8 = "0.3"
