[package]
name = "polymarket_oracle"
version = "0.1.0"
edition = "2021"
publish = false

[dependencies]
anyhow = "*"
seda-sdk-rs = "*"
