[package]
name = "orcashell_ui"
version = "0.1.0"
edition = "2021"
publish = false

[dependencies]
async-channel = "2"
parking_lot = "0.12"
tracing = "0.1"
