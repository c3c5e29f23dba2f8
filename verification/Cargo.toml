[package]
name = "chola-controller"
version = "0.1.0"
edition = "2021"
publish = false

[dependencies]
chrono = { version = "=0.4.45", default-features = false, features = ["std", "clock"] }
uuid = { version = "=1.29.0", features = ["v5"] }
sha2 = "=0.10.9"
hex = "=0.4.3"
hmac = "=0.12.1"
rand = "=0.8.8"
regex = "1"
