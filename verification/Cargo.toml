[package]
name = "loki"
version = "0.1.0"
edition = "2021"
publish = false

[dependencies]
chrono = "0.4"
chrono-tz = "*"
csv = "1"
log = "0.4"
