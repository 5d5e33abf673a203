[package]
name = "jwt_auth"
version = "0.1.0"
edition = "2021"
publish = false

[dependencies]
jsonwebtoken = "9"
chrono = "0.4"
serde = { version = "1", features = ["derive"] }
serde_json = "1"
poem = { version = "3", features = ["multipart"] }
mongodb = "3"
bson = "2"
futures = "0.3"
futures-util = "0.3"
tokio = { version = "1", features = ["macros", "rt-multi-thread"] }
