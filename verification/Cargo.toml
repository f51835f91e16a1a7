[package]
name = "graphquery"
version = "0.1.0"
edition = "2021"
publish = false

[dependencies]
actix-web = "*"
mysql = "*"
serde = { version = "*", features = ["derive"] }
serde_json = "*"
