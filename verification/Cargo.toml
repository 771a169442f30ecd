[package]
name = "ktmpl"
version = "0.1.0"
edition = "2021"
publish = false

[dependencies]
base64 = "0.13"
yaml-rust = "0.3"
clap = "2"
