[package]
name = "logarray"
version = "0.1.0"
edition = "2021"
publish = false

[dependencies]
bytes = "1"
tokio = { version = "1", default-features = false, features = ["fs", "io-util", "rt"] }
tokio-util = { version = "0.7", default-features = false, features = ["codec"] }
futures = "0.3"
async-trait = "0.1"
