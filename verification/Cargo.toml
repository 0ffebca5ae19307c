[package]
name = "anything_engine"
version = "0.1.0"
edition = "2021"
publish = false

[dependencies]
serde_json = "*"
tera = "*"
serde = { version = "*", features = ["derive"] }
tokio = { version = "*", features = ["macros", "rt-multi-thread", "sync", "time"] }
reqwest = { version = "*", default-features = false }
postgrest = "*"
dotenv = "*"
uuid = { version = "*", features = ["v4", "serde"] }
