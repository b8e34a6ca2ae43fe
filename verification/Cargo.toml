[package]
name = "ff_router"
version = "0.1.0"
edition = "2021"
publish = false

[dependencies]
globset = "0.4"
similar = "2"
chrono = "0.4"
serde = { version = "1", features = ["derive"] }
toml = "0.8"
ratatui = "0.29"
objc2 = "0.6"
objc2-foundation = "0.3"
objc2-app-kit = "0.3"
block2 = "0.6"
