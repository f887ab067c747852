[package]
name = "lusl"
version = "1.2.0"
edition = "2021"
publish = false

[dependencies]
chacha20poly1305 = { version = "0.10", features = ["stream"] }
flate2 = "1"
md-5 = "0.10"
rust-argon2 = "1.0"
