[package]
name = "stellar_core"
version = "0.1.0"
edition = "2021"
publish = false

[dependencies]
lasso = "*"
clap = { version = "4", features = ["derive"] }
