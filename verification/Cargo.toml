[package]
name = "linecount"
version = "0.1.0"
edition = "2021"
publish = false

[dependencies]
anyhow = "1"
bytecount = "0.6"
clap = { version = "4", features = ["derive"] }
rand = "0.8"
