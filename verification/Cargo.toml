[package]
name = "node_process"
version = "0.1.0"
edition = "2021"
publish = false

[dependencies]
necs = "=0.1.0"
