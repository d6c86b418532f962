[package]
name = "hitman"
version = "0.1.0"
edition = "2021"
publish = false

[dependencies]
rand = "*"
uuid = { version = "*", features = ["v4"] }
axum = "*"
tokio = { version = "*", features = ["rt-multi-thread", "macros", "net"] }
serde = { version = "*", features = ["derive"] }
serde_json = "*"
