[package]
name = "agmd"
version = "0.1.0"
edition = "2021"
publish = false

[dependencies]
chrono = "*"
clap = { version = "*", features = ["derive"] }
ignore = "*"
osc8 = "*"
pulldown-cmark = "*"
url = "*"
