[package]
name = "ct_snooper"
version = "0.1.0"
edition = "2021"
publish = false

[dependencies]
chrono = "0.4"
crossterm = "*"
structopt = "0.3"
