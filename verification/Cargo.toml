[package]
name = "fz"
version = "0.1.0"
edition = "2021"
publish = false

[dependencies]
crossterm = "=0.25.0"
fuzzy-matcher = "0.3"
