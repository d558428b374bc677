[package]
name = "budgeting_backend"
version = "0.1.0"
edition = "2021"
publish = false

[dependencies]
uuid = { version = "*", features = ["v4"] }
email_address = "*"
rust_decimal = "*"
chrono = "*"
