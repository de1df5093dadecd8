[package]
name = "music_management"
version = "0.1.0"
edition = "2021"
publish = false

[dependencies]
serde_json = "1"
urlencoding = "2"
reqwest = { version = "0.12", default-features = false, features = ["rustls-tls"] }
tokio = { version = "1", features = ["macros", "rt-multi-thread"] }
poise = "0.6"
dotenv = "0.15"
