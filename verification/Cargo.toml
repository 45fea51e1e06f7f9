[package]
name = "bloom_filter_rs"
version = "0.1.0"
edition = "2021"
publish = false

[dependencies]
ahash = { version = "=0.8.12", default-features = false }
seahash = "=4.1.0"

[dev-dependencies]
rand = "=0.8.8"
