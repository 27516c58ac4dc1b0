[package]
name = "wallet_lib"
version = "0.1.0"
edition = "2021"
publish = false

[dependencies]
chrono = "*"
clap = "*"
glob = "*"
uuid = { version = "*", features = ["v4"] }
yaml-rust = "*"
