[package]
name = "axiom_core"
version = "0.47.0"
edition = "2021"
publish = false

[dependencies]
parking_lot = "0.12"
pyo3 = "*"
