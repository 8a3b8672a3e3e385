[package]
name = "idea_api"
version = "0.1.0"
edition = "2021"
publish = false

[dependencies]
uuid = { version = "1", features = ["v4"] }
chrono = "0.4"
serde = { version = "1", features = ["derive"] }
actix-web = "4"
actix-rt = "2"
dotenv = "0.15"
env_logger = "0.11"
