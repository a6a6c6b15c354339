[package]
name = "zd"
version = "0.1.0"
edition = "2021"
publish = false

[dependencies]
memchr = "=2.8.3"
anyhow = "=1.0.104"
atty = "=0.2.14"
clap = { version = "=3.2.25", features = ["derive"] }
regex = "1"
