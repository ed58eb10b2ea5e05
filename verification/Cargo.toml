[package]
name = "routing_codec"
version = "0.1.0"
edition = "2021"
publish = false

[dependencies]
opentelemetry = "*"
miette = "*"
console = "*"
colorful = "*"
sqlx = { version = "*", default-features = false, features = ["sqlite", "runtime-tokio"] }
