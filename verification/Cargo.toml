[package]
name = "swiftjourney"
version = "0.1.0"
edition = "2021"
publish = false

[dependencies]
argon2 = { version = "=0.5.3", features = ["std"] }
rust_decimal = "=1.43.0"
uuid = { version = "=1.29.0", features = ["v4"] }
chrono = "=0.4.45"
dashmap = "=6.2.1"
anyhow = "=1.0.104"
thiserror = "=2.0.21"
