[package]
name = "parallel_download"
version = "0.1.0"
edition = "2021"
publish = false

[dependencies]
hyper = "0.10"
docopt = "1.1"
serde = { version = "1", features = ["derive"] }
