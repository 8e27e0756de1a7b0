[package]
name = "companion"
version = "0.1.0"
edition = "2021"
publish = false

[dependencies]
dirs = "6"
eframe = { version = "0.29", default-features = false, features = ["x11"] }
libc = "0.2"
