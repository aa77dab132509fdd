[package]
name = "varlink"
version = "0.1.0"
edition = "2021"
publish = false

[dependencies]
bam = "*"
clap = { version = "*", features = ["derive"] }
