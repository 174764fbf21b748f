[package]
name = "mcproto"
version = "0.1.0"
edition = "2021"
publish = false

[dependencies]
flate2 = "*"
bytes = "*"
futures = "*"
tokio = { version = "*", features = ["full"] }
tokio-util = { version = "*", features = ["codec"] }
