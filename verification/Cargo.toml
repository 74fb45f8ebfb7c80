[package]
name = "fints_statements"
version = "0.1.0"
edition = "2021"
publish = false

[dependencies]
chrono = { version = "0.4", default-features = false, features = ["clock", "std"] }
encoding_rs = "0.8"
mt940 = "*"
quick-xml = "0.37"
rust_decimal = "1"
serde_json = "1"
tracing = "0.1"
