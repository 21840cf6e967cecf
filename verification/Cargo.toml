[package]
name = "pssh"
version = "0.1.0"
edition = "2021"
publish = false

[dependencies]
yaml-rust = "0.4"
clap = "2"
log = "0.4"
fern = "0.6"
chrono = "0.4"
