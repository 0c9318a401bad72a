[package]
name = "dns_hero"
version = "0.1.0"
edition = "2021"
publish = false

[dependencies]
base64 = "0.13"
hyper = "0.12"
hyper-tls = "0.3"
