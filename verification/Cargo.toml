[package]
name = "lua"
version = "0.1.0"
edition = "2021"
publish = false

[dependencies]
bincode = "1.3"
flate2 = "1"
serde = { version = "1", features = ["derive"] }
