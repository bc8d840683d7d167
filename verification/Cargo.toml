[package]
name = "gdps_patcher"
version = "0.1.0"
edition = "2021"
publish = false

[dependencies]
base64 = "=0.22.1"
reqwest = { version = "0.12", features = ["blocking"] }
walkdir = "=2.5.0"
zip = { version = "2", default-features = false, features = ["deflate"] }
