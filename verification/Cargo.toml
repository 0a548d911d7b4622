[package]
name = "speedtest_core"
version = "0.1.0"
edition = "2021"
publish = false

[dependencies]
anyhow = "1"
clap = { version = "4", features = ["derive"] }
kdam = "*"
spinoff = "*"
