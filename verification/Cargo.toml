[package]
name = "buck2cargo"
version = "0.1.0"
edition = "2021"
publish = false

[dependencies]
petgraph = "*"
serde = "*"
serde_derive = "*"
serde_json = "*"
getopts = "*"
failure = "*"
