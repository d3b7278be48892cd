[package]
name = "tagcore"
version = "0.1.0"
edition = "2021"
publish = false

[dependencies]
jj-lib = "0.14.0"
clap = { version = "4", features = ["derive"] }
