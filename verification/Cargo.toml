[package]
name = "linen"
version = "0.1.0"
edition = "2021"

[dependencies]
logos = "*"
rustyline = "*"
