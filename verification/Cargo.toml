[package]
name = "netlab"
version = "0.1.0"
edition = "2021"
publish = false

[dependencies]
mio = "0.6"
tokio = { version = "0.2", features = ["full"] }
futures = "0.3"
clap = "2"
