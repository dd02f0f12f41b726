[package]
name = "snake_game"
version = "0.1.0"
edition = "2021"
publish = false

[dependencies]
rand = "0.8"
axum = "0.6"
tokio = { version = "1", features = ["macros", "rt-multi-thread", "sync", "signal"] }
serde = { version = "1", features = ["derive"] }
crossterm = "0.27"
