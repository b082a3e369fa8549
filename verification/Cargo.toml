[package]
name = "jnk"
version = "0.1.0"
edition = "2021"
publish = false

[dependencies]
num-bigint = "=0.5.1"
num-traits = "=0.2.19"
