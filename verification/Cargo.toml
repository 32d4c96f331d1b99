[package]
name = "ipv4_decode"
version = "0.1.0"
edition = "2021"
publish = false

[dependencies]
tun-tap = "*"
