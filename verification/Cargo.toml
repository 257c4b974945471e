[package]
name = "span_error"
version = "0.1.0"
edition = "2021"
publish = false

[dependencies]
logos = "*"
serde = "1"
