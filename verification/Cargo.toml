[package]
name = "crane_front"
version = "0.1.0"
edition = "2021"
publish = false

[dependencies]
ansi_term = "*"
cbvm = "*"
