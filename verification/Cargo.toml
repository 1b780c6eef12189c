[package]
name = "glu"
version = "0.1.0"
edition = "2021"
publish = false

[dependencies]
clap = { version = "4", features = ["derive"] }
markdown = "*"
reqwest = { version = "0.12", default-features = false, features = ["blocking"] }
safe-path = "*"
tempdir = "*"
url = "*"
