[package]
name = "filegate"
version = "0.1.0"
edition = "2021"
publish = false

[dependencies]
urlencoding = "*"
walkdir = "*"
hmac = "*"
sha2 = "*"

[dev-dependencies]
tempfile = "*"
