[package]
name = "market_feed"
version = "0.1.0"
edition = "2021"
publish = false

[dependencies]
tokio = { version = "*", features = ["full"] }
reqwest = { version = "*", default-features = false, features = ["json"] }
serde = { version = "*", features = ["derive"] }
serde_json = "*"
async-trait = "*"
futures = "*"
futures-util = "*"
hmac = "*"
sha2 = "*"
hex = "*"
