[package]
name = "zset_engine"
version = "0.1.0"
edition = "2021"
publish = false

[dependencies]
md5 = "*"
base64 = "*"
