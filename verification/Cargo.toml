[package]
name = "mpc_bridge"
version = "0.1.0"
edition = "2021"
publish = false

[dependencies]
ctor = "*"
lazy_static = "1"
