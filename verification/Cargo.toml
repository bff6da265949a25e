[package]
name = "dua"
version = "0.1.0"
edition = "2021"
publish = false

[dependencies]
anyhow = "1"
filesize = "0.2"
