[package]
name = "minerust"
version = "0.1.0"
edition = "2021"
publish = false

[dependencies]
rand = "0.8"
reqwest = { version = "0.11", default-features = false, features = ["json"] }
serde = { version = "1", features = ["derive"] }
serde_json = "1"
tokio = { version = "1", features = ["rt"] }
uuid = "1"
warp = "0.3"
webbrowser = "0.8"
