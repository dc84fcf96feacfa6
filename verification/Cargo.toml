[package]
name = "apple_matting_cli"
version = "0.1.0"
edition = "2021"
publish = false

[dependencies]
axum = { version = "*", features = ["multipart"] }
serde = { version = "1", features = ["derive"] }
tempfile = "3"
thiserror = "*"
tokio = { version = "1", features = ["macros", "rt-multi-thread", "net", "fs"] }
tower-http = { version = "*", features = ["cors"] }
