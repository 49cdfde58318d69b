[package]
name = "modman"
version = "0.1.0"
edition = "2021"
publish = false

[dependencies]
zip = "*"
tar = "*"
flate2 = "*"
base64 = "*"
serde = { version = "*", features = ["derive"] }
serde_json = "*"
walkdir = "*"
dirs = "*"
