[package]
name = "build_locks"
version = "0.1.0"
edition = "2021"
publish = false

[dependencies]
anyhow = "1"
libc = "0.2"
regex = "1"
snapbox = "0.6"
walkdir = "2"
