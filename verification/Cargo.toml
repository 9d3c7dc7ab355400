[package]
name = "aglang"
version = "0.1.0"
edition = "2021"
publish = false

[dependencies]
clap = { version = "4", features = ["derive"] }
regex-lite = "0.1"
spinners = "4"
