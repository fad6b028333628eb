[package]
name = "qbit"
version = "0.3.0"
edition = "2021"
publish = false

[dependencies]
clap = "2"
regex = "1"
tokio = { version = "1", features = ["rt-multi-thread", "process"] }
walkdir = "2"
