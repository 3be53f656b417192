[package]
name = "lsm_table"
version = "0.1.0"
edition = "2021"
publish = false

[dependencies]
bytes = "0.4"
crc = "1"
regex = "1"
