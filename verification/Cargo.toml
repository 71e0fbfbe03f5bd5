[package]
name = "leaderboard"
version = "0.1.0"
edition = "2021"
publish = false

[dependencies]
time = { version = "*", features = ["formatting"] }
rusqlite = { version = "*", features = ["bundled"] }
serde = { version = "*", features = ["derive"] }
actix-web = "*"
dotenv = "*"
env_logger = "*"
