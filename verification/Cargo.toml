[package]
name = "chat_overlay"
version = "0.1.0"
edition = "2021"
publish = false

[dependencies]
hex = "*"
futures = "*"
irc = { version = "*", default-features = false }
rand = "*"
sdl2 = { version = "*", features = ["ttf"] }
serde = { version = "*", features = ["derive"] }
tokio = { version = "*", features = ["rt-multi-thread", "time"] }
toml = "*"
