[package]
name = "sui_sdk"
version = "0.1.0"
edition = "2021"
publish = false

[dependencies]
anyhow = "1"
futures = "0.3"
futures-core = "0.3"
move-core-types = "0.0.3"
serde = { version = "1", features = ["derive"] }
tokio = { version = "1", features = ["sync"] }
