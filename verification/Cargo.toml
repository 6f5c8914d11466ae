[package]
name = "stwo_polynomial"
version = "0.1.0"
edition = "2021"

[dependencies]
serde_json = "1"
stwo = "=1.0.0"
