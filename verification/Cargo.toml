[package]
name = "portscan"
version = "0.1.0"
edition = "2021"
publish = false

[dependencies]
colored = "*"
getopts = "*"
