[package]
name = "logshear"
version = "0.1.0"
edition = "2021"
publish = false

[dependencies]
regex = "1"
serde = { version = "1", features = ["derive"] }
serde_json = "1"
rand = "0.8"
flate2 = "1"
bzip2 = "0.4"
