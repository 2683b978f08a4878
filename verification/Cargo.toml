[package]
name = "canonize"
version = "0.1.0"
edition = "2021"
publish = false

[dependencies]
num-bigint = "=0.4.8"
num-rational = "=0.4.2"
