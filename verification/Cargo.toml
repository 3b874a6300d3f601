[package]
name = "csv_utils"
version = "0.1.0"
edition = "2021"
publish = false

[dependencies]
sha1 = "*"
faster-hex = "*"
url = "*"
csv = "*"
