[package]
name = "crushscript"
version = "0.1.0"
edition = "2021"
publish = false

[dependencies]
oxc = "=0.142.0"
clap = { version = "=4.5.61", features = ["derive"] }
