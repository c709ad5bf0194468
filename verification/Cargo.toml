[package]
name = "starky"
version = "0.1.0"
edition = "2021"
publish = false

[dependencies]
serde_json = "*"
num-bigint = "*"
num-traits = "*"
