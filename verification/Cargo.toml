[package]
name = "ilp_stream"
version = "0.1.0"
edition = "2021"
publish = false

[dependencies]
sha2 = "0.10"
hmac = "0.12"
aes-gcm = "0.10"
rand = "0.8"
chrono = "0.4"
tokio = { version = "1", features = ["rt", "sync", "time", "macros"] }
