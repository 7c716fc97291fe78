[package]
name = "shooter_core"
version = "0.1.0"
edition = "2021"
publish = false

[dependencies]
kd-tree = "*"
typenum = "*"
rand = "0.8"
