[package]
name = "masterlist_interpreter"
version = "0.1.0"
edition = "2021"
publish = false

[dependencies]
x509-parser = "*"
serde_json = "*"
