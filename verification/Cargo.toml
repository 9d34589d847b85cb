[package]
name = "tangram_engine"
version = "0.1.0"
edition = "2021"
publish = false

[dependencies]
percent-encoding = "*"
png = "*"
serde = { version = "*", features = ["derive"] }
serde_json = "*"
