[package]
name = "svarogue"
version = "0.1.0"
edition = "2021"
publish = false

[dependencies]
noise = "=0.7.0"
rltk = { version = "=0.8.7", default-features = false, features = ["crossterm"] }
