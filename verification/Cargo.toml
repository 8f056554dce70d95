[package]
name = "holo"
version = "0.1.0"
edition = "2021"
publish = false

[dependencies]
clap = { version = "*", features = ["derive"] }
new_mime_guess = "*"
