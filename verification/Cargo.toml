[package]
name = "matrix_room"
version = "0.1.0"
edition = "2021"
publish = false

[dependencies]
ruma = { version = "=0.4.0", features = ["client-api-c", "events"] }
serde_json = { version = "=1.0.154", features = ["raw_value"] }
tokio = { version = "=1.54.1", default-features = false, features = ["sync"] }
