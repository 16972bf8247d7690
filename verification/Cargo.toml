[package]
name = "feo"
version = "0.1.0"
edition = "2021"
publish = false

[dependencies]
rounded-div = "*"
termion = "*"
clap = { version = "3", features = ["derive"] }
anyhow = "1"
