[package]
name = "codesort"
version = "0.1.0"
edition = "2021"
publish = false

[dependencies]
clap = { version = "4", features = ["derive"] }
clap-help = "1"
termimad = "*"
lazy-regex = "3"
