[package]
name = "amqp1"
version = "0.1.0"
edition = "2021"
publish = false

[dependencies]
bytes = "0.4"
tokio-io = "0.1"
chrono = { version = "0.4", default-features = false }
uuid = "0.6"
