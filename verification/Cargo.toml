[package]
name = "curl_rs"
version = "1.0.0"
edition = "2021"
publish = false

[dependencies]
clap = "4"
