[package]
name = "fluxplay"
version = "0.1.0"
edition = "2021"
publish = false

[dependencies]
sha2 = "0.10"
hex = "0.4"
url = "2"
uuid = "1"
serde = { version = "1", features = ["derive"] }
serde_json = "1"
