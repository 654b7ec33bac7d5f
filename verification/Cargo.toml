[package]
name = "nodes"
version = "0.1.0"
edition = "2021"
publish = false

[dependencies]
petgraph = "=0.6.5"
rand = "=0.8.8"
