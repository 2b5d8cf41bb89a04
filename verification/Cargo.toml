[package]
name = "astwalk"
version = "0.1.0"
edition = "2021"
publish = false

[dependencies]
cow-utils = "*"
serde_json = "1"
