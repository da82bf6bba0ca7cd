[package]
name = "yarnballs"
version = "0.1.0"
edition = "2021"
publish = false

[dependencies]
chrono = "*"
rand = "*"
rustler = "*"
uuid = { version = "*", features = ["v4"] }
