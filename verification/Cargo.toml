[package]
name = "assembly"
version = "0.1.0"
edition = "2021"
publish = false

[dependencies]
winter-utils = "=0.2.0"
