[package]
name = "snn"
version = "0.1.0"
edition = "2021"
publish = false

[dependencies]
graphviz-rust = "*"
rustc_apfloat = "*"
