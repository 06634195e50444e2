[package]
name = "aicut"
version = "0.1.0"
edition = "2021"
publish = false

[dependencies]
sha2 = "0.10"
chrono = "0.4"
serde = { version = "1", features = ["derive"] }
serde_json = "1"
dirs = "*"
libloading = "0.8"
zip = "*"
reqwest = { version = "0.12", features = ["blocking"] }
