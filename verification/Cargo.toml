[package]
name = "hashstorage"
version = "0.1.0"
edition = "2021"
publish = false

[dependencies]
sha2 = "=0.10.9"
itertools = "=0.14.0"
serde = { version = "=1.0.229", features = ["derive"] }
actix-web = "=4.15.0"
actix-cors = "=0.7.2"
