[package]
name = "edgedns_core"
version = "0.1.0"
edition = "2021"
publish = false

[dependencies]
coarsetime = "*"
jumphash = "*"
parking_lot = "*"
rand = "*"
