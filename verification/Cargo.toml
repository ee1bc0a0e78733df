[package]
name = "bank"
version = "0.1.0"
edition = "2021"
publish = false

[dependencies]
frame-support = "*"
parity-scale-codec = { version = "*", features = ["derive"] }
serde = { version = "1", features = ["derive"] }
