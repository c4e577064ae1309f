[package]
name = "opendal_demo"
version = "0.1.0"
edition = "2021"
publish = false

[dependencies]
anyhow = "1"
chrono = "0.4"
opendal = { version = "*", features = ["services-gdrive"] }
serde_json = "1"
tokio = { version = "1", features = ["macros", "rt-multi-thread"] }
