[package]
name = "qqrl"
version = "0.1.0"
edition = "2021"
publish = false

[dependencies]
chrono = "*"
clap = { version = "4", features = ["derive"] }
comfy-table = "*"
dotenvy = "*"
regex = "1"
rust_decimal = "1"
serde_json = "1"
thiserror = "*"
