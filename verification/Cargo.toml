[package]
name = "toastnapi"
version = "0.1.0"
edition = "2021"
publish = false

[dependencies]
futures = "0.3"
miette = "*"
napi = { version = "2", features = ["async"] }
napi-derive = "2"
serde = { version = "1", features = ["derive"] }
serde_json = "1"
tokio = { version = "1", features = ["sync"] }
tokio-stream = "0.1"
walkdir = "2"
