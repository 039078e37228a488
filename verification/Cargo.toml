[package]
name = "counterfeit"
version = "0.1.0"
edition = "2021"
publish = false

[dependencies]
anyhow = "1"
futures = "0.3"
hyper = { version = "0.14", features = ["full"] }
structopt = "0.3"
tokio = { version = "1", features = ["full"] }
walkdir = "2"
