[package]
name = "gpionext_core"
version = "0.1.0"
edition = "2021"
publish = false

[dependencies]
parking_lot = "0.12"
pyo3 = "0.22"
rayon = "1"
