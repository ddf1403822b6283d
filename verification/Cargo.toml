[package]
name = "apiai"
version = "0.1.0"
edition = "2021"
publish = false

[dependencies]
uuid = { version = "*", features = ["v4"] }
hyper = "0.10"
hyper-native-tls = "0.3"
