[package]
name = "morse"
version = "0.1.0"
edition = "2021"
publish = false

[dependencies]
itertools = "0.9"
structopt = "0.3"
rodio = { version = "0.11", default-features = false }
