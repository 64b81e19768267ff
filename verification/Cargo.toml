[package]
name = "eventdesk"
version = "0.1.0"
edition = "2021"
publish = false

[dependencies]
argon2 = "*"
base64 = "*"
rand = "*"
actix-web = "*"
actix-cors = "*"
serde = { version = "*", features = ["derive"] }
chrono = { version = "*", features = ["serde"] }
sqlx = { version = "*", default-features = false, features = ["sqlite", "runtime-tokio"] }
