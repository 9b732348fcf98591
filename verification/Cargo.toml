[package]
name = "mexc"
version = "0.1.0"
edition = "2021"
publish = false

[dependencies]
hmac = "*"
sha2 = "*"
reqwest = { version = "*", default-features = false, features = ["rustls-tls"] }
async-trait = "*"
chrono = "*"
