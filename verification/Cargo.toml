[package]
name = "splash_screen"
version = "0.1.0"
edition = "2021"
publish = false

[dependencies]
image = "*"
cosmic-text = "*"
serde = { version = "*", features = ["derive"] }
serde_bytes = "*"
rmp-serde = "*"
uuid = { version = "*", features = ["v4"] }
