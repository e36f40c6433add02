[package]
name = "todo_store"
version = "0.1.0"
edition = "2021"
publish = false

[dependencies]
anyhow = "*"
chrono = "*"
clap = { version = "*", features = ["derive"] }
crossterm = "*"
inquire = "*"
strum = { version = "*", features = ["derive"] }
uuid = { version = "*", features = ["v4"] }
