[package]
name = "packetry"
version = "0.1.0"
edition = "2021"
publish = false

[dependencies]
humansize = "=1.1.1"
num-format = "0.4"
