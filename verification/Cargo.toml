[package]
name = "rusty_brain"
version = "0.1.0"
edition = "2021"
publish = false

[dependencies]
repl-rs = "*"
