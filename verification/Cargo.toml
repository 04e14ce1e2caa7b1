[package]
name = "game_engine"
version = "0.1.0"
edition = "2021"
publish = false

[dependencies]
image = "0.24"
urlencoding = "2"
serde = { version = "1", features = ["derive"] }
serde_json = "1"
reqwest = { version = "0.11", default-features = false }
tokio = { version = "1", features = ["rt", "time"] }
pollster = "0.3"
egui = "0.22"
