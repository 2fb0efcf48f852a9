[package]
name = "neosh"
version = "0.1.0"
edition = "2021"
publish = false

[dependencies]
getset = "*"
libc = "0.2"
mimalloc = "*"
paste = "1"
typed-builder = "*"
