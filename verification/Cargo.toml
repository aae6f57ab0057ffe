[package]
name = "trade_engine"
version = "0.1.0"
edition = "2021"
publish = false

[dependencies]
ordered-float = "*"

[dev-dependencies]
chrono = { version = "*", default-features = false, features = ["now"] }
