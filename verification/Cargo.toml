[package]
name = "csvpsql"
version = "0.1.0"
edition = "2021"
publish = false

[dependencies]
chrono = "0.4"
dtparse = "*"
csv = "1"
structopt = "0.3"
