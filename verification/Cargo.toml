[package]
name = "pastey_physical"
version = "0.1.0"
edition = "2021"
publish = false

[dependencies]
blake3 = "1"
uuid = { version = "1", features = ["v4"] }
time = { version = "0.3", features = ["parsing", "formatting"] }
serde = { version = "1", features = ["derive"] }
serde_json = "1"
