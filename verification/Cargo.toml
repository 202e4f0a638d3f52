[package]
name = "tafl"
version = "0.1.0"
edition = "2021"
publish = false

[dependencies]
rand = "0.8"
serde = { version = "1", features = ["derive"] }
serde_json = "1"
tokio = { version = "1", features = ["full"] }
warp = "0.3"
uuid = { version = "1", features = ["v4"] }
async-stream = "0.3"
