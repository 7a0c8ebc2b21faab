[package]
name = "bibexport"
version = "0.1.0"
edition = "2021"
publish = false

[dependencies]
anyhow = "1"
csv = "1"
flate2 = "1"
serde_json = "1"
