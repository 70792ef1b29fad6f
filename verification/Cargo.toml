[package]
name = "debug_graphics"
version = "0.1.0"
edition = "2021"
publish = false

[dependencies]
embedded-graphics = "=0.8.2"
limine = "=0.5.0"
spin = "=0.9.9"
x86_64 = { version = "=0.15.5", default-features = false, features = ["instructions"] }
