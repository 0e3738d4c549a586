[package]
name = "light_cli"
version = "0.1.0"
edition = "2021"
publish = false

[dependencies]
embedded-hal = "0.2"
heapless = "0.8"
nb = "1"
