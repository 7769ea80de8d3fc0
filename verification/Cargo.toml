[package]
name = "text_input_core"
version = "0.1.0"
edition = "2021"
publish = false

[dependencies]
cosmic-text = "*"
