[package]
name = "tiered_cache"
version = "0.1.0"
edition = "2021"
publish = false

[dependencies]
async-trait = "*"
lru = "*"
moka = { version = "*", features = ["sync"] }
tokio = { version = "*", features = ["rt", "sync"] }
