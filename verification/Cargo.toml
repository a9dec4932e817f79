[package]
name = "short_crypt"
version = "0.1.0"
edition = "2021"
publish = false

[dependencies]
base32 = "*"
base64-url = "*"
crc-any = "*"
