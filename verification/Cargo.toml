[package]
name = "bt_only_headers"
version = "0.1.0"
edition = "2021"
publish = false

[dependencies]
aes = "0.8"
cipher = "0.4"
byteorder = "1"
libc = "0.2"
