[package]
name = "potabot"
version = "0.1.0"
edition = "2021"
publish = false

[dependencies]
regex = "1"
rand = "0.9"
serde = { version = "1", features = ["derive"] }
bincode = { version = "2", default-features = false, features = ["std", "serde"] }
tokio = { version = "1", features = ["macros", "rt-multi-thread"] }
uuid = "1"
async-trait = "0.1"
poise = "0.6"
serenity = { version = "0.12", default-features = false, features = ["builder", "cache", "chrono", "client", "framework", "gateway", "http", "model", "rustls_backend", "utils"] }
ollama-rs = { version = "0.3", default-features = false }
