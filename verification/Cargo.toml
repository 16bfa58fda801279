[package]
name = "bytecodec"
version = "0.1.0"
edition = "2021"
publish = false

[dependencies]
encoding = "=0.2.33"
serde = "=1.0.229"
serde-seeded = "*"
