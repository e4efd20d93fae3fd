[package]
name = "sysadmin"
version = "0.1.0"
edition = "2021"
publish = false

[dependencies]
chrono = "0.4"
clap = { version = "4", features = ["derive"] }
regex = "1"
tempfile = "3"
