[package]
name = "dreamberd"
version = "0.1.0"
edition = "2021"
publish = false

[dependencies]
lazy-regex = "*"
clap = { version = "4", features = ["derive"] }
dialoguer = "*"
rustyline = "*"
