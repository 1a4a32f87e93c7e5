[package]
name = "optionstratlib"
version = "0.1.0"
edition = "2021"
publish = false

[dependencies]
chrono = "*"
rust_decimal = "*"
serde = { version = "*", features = ["derive"] }
