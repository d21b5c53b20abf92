[package]
name = "moneta"
version = "0.1.0"
edition = "2021"
publish = false

[dependencies]
rust_decimal = "*"
bigdecimal = "*"
serde = { version = "*", features = ["derive"] }
postgres-types = "*"
