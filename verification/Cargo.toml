[package]
name = "silverbullet"
version = "0.1.0"
edition = "2021"
publish = false

[dependencies]
mime_guess = "*"
axum = "*"
tokio = { version = "*", features = ["rt-multi-thread", "net", "macros"] }
http = "*"
serde = { version = "*", features = ["derive"] }
