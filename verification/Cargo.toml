[package]
name = "mongo_demo"
version = "0.1.0"
edition = "2021"
publish = false

[dependencies]
mongodb = "=2.8.2"

[dev-dependencies]
tokio-test = "0.4"
