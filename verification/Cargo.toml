[package]
name = "jaydar"
version = "0.1.0"
edition = "2021"
publish = false

[dependencies]
jmdict = "*"
