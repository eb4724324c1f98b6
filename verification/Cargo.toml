[package]
name = "email_signer"
version = "0.1.0"
edition = "2021"
publish = false

[dependencies]
actix-cors = "0.7"
actix-web = { version = "4", default-features = false, features = ["macros"] }
base58 = "0.2"
env_logger = "0.11"
ring = "0.17"
serde = { version = "1", features = ["derive"] }
serde_json = "1"
