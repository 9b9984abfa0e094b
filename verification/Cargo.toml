[package]
name = "pop3fetch"
version = "0.1.0"
edition = "2021"
publish = false

[dependencies]
base64 = "0.13"
clap = "4"
openssl = "0.10"
rusqlite = { version = "0.31", features = ["bundled"] }
