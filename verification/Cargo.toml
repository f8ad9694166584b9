[package]
name = "wirecodec"
version = "0.1.0"
edition = "2021"
publish = false

[dependencies]
rand = "0.8"
rand_core = { version = "0.6", features = ["getrandom"] }
k256 = { version = "0.13", features = ["ecdh"] }
hex = "0.4"
flate2 = "1"
serde = { version = "1", features = ["derive"] }
reqwest = { version = "0.11", features = ["json"] }
