[package]
name = "whosaidwhat"
version = "0.1.0"
edition = "2021"
publish = false

[dependencies]
anyhow = "1"
hound = "3"
reqwest = { version = "0.12", default-features = false, features = ["json"] }
rusqlite = { version = "*", features = ["bundled"] }
serde = { version = "1", features = ["derive"] }
serde_json = "1"
thiserror = "*"
tokio = { version = "1", features = ["rt-multi-thread"] }
tracing = "0.1"
