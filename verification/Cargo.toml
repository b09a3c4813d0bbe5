[package]
name = "handshake"
version = "0.1.0"
edition = "2021"
publish = false

[dependencies]
rand = "0.8"
sha256 = "*"
chrono = "0.4"
