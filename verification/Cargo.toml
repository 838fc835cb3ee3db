[package]
name = "migr"
version = "0.1.0"
edition = "2021"
publish = false

[dependencies]
anyhow = "*"
clap = { version = "*", features = ["derive"] }
colored = "*"
postgres = "*"
time = { version = "*", features = ["formatting"] }
