[package]
name = "cringecast"
version = "0.1.0"
edition = "2021"
publish = false

[dependencies]
libc = "0.2"
rouille = "3"
serde_json = "1"
