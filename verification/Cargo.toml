[package]
name = "meli"
version = "0.1.0"
edition = "2021"
publish = false

[dependencies]
data-encoding = "=2.11.1"
socket2 = "*"
