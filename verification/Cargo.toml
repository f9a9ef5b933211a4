[package]
name = "ym"
version = "0.1.0"
edition = "2021"
publish = false

[dependencies]
clap = { version = "4", features = ["derive"] }
regex = "1"
serde_yaml = "0.9"
termsize = "0.1"
