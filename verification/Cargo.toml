[package]
name = "battlesnake"
version = "0.1.0"
edition = "2021"
publish = false

[dependencies]
pathfinding = "=4.16.0"
rand = "=0.10.3"
serde = { version = "=1.0.229", features = ["derive"] }
env_logger = "=0.11.11"
actix-web = { version = "=4.15.0", default-features = false, features = ["macros"] }
