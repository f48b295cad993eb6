[package]
name = "esrs"
version = "0.1.0"
edition = "2021"
publish = false

[dependencies]
arc-swap = "*"
sqlx = { version = "*", default-features = false, features = ["postgres", "runtime-tokio"] }
