[package]
name = "account_sessions"
version = "0.1.0"
edition = "2021"
publish = false

[dependencies]
uuid = { version = "1", features = ["v5"] }
serde_json = "1"
serde = { version = "1", features = ["derive"] }
chrono = "0.4"
dashmap = "6"
sqlx = { version = "0.8", default-features = false, features = ["sqlite", "runtime-tokio"] }
reqwest = { version = "0.12", default-features = false }
