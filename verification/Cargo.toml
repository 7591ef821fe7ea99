[package]
name = "utopia_sync"
version = "0.1.0"
edition = "2021"
publish = false

[dependencies]
base64 = "0.13"
serde = { version = "*", features = ["derive"] }
chrono = { version = "*", features = ["serde"] }
reqwest = { version = "*", default-features = false, features = ["blocking", "json"] }
actix-web = { version = "*", default-features = false }
env_logger = "*"
