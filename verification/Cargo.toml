[package]
name = "file_hosting"
version = "0.1.0"
edition = "2021"
publish = false

[dependencies]
bcrypt = "*"
