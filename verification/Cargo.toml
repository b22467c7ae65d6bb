[package]
name = "ledgerkit"
version = "0.1.0"
edition = "2021"
publish = false

[dependencies]
anyhow = "1"
chrono = { version = "0.4", default-features = false, features = ["std", "clock"] }
clap = { version = "4", features = ["derive"] }
csv = "1"
hex = "0.4"
regex = "1"
rusqlite = { version = "0.31", features = ["bundled"] }
rust_decimal = "1"
serde = { version = "1", features = ["derive"] }
serde_json = "1"
serde_yaml = "0.9"
sha2 = "0.10"
thiserror = "1"
uuid = { version = "1", features = ["v4", "v7", "serde"] }
