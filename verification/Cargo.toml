[package]
name = "task_stack"
version = "0.1.0"
edition = "2021"
publish = false

[dependencies]
chrono = "*"
ulid = "*"
serde = { version = "*", features = ["derive"] }
libsql = "*"
html-node = "*"
futures = "*"
