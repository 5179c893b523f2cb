[package]
name = "librepat"
version = "0.1.0"
edition = "2021"
publish = false

[dependencies]
time = { version = "=0.3.55", features = ["parsing", "local-offset"] }
sha2 = "=0.10.9"
