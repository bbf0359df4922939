[package]
name = "seller_library"
version = "0.1.0"
edition = "2021"
publish = false

[dependencies]
image = "0.24"
base64 = "0.22"
chrono = "0.4"
