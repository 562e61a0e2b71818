[package]
name = "record_store"
version = "0.1.0"
edition = "2021"
publish = false

[dependencies]
sled = "*"
actix-web = "*"
actix-cors = "*"
serde = { version = "*", features = ["derive"] }
env_logger = "*"
log = "*"
tokio = { version = "*", features = ["macros", "rt-multi-thread"] }
