[package]
name = "iggy"
version = "0.1.0"
edition = "2021"
publish = false

[dependencies]
byte-unit = "5"
crc32fast = "1"
