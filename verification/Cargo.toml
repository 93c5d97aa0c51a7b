[package]
name = "clara"
version = "0.1.0"
edition = "2021"
publish = false

[dependencies]
subst = "0.3"
