[package]
name = "aether"
version = "0.1.0"
edition = "2021"
publish = false

[dependencies]
log = "=0.4.35"
embedded-graphics = "=0.8.2"
limine = "=0.5.0"
