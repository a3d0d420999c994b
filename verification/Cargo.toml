[package]
name = "recipes_rs"
version = "0.1.0"
edition = "2021"
publish = false

[dependencies]
actix-web = "4"
diesel = { version = "2", default-features = false, features = ["postgres_backend"] }
diesel-async = { version = "*", features = ["postgres", "deadpool"] }
dotenvy = "0.15"
serde = { version = "1", features = ["derive"] }
serde_json = "1"
