[package]
name = "flights"
version = "0.1.0"
edition = "2021"
publish = false

[dependencies]
actix-web = { version = "*", default-features = false, features = ["macros"] }
actix-rt = "*"
bson = "*"
futures = "*"
mongodb = "*"
serde = { version = "*", features = ["derive"] }
