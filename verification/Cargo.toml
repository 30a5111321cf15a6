[package]
name = "soht"
version = "0.1.0"
edition = "2021"
publish = false

[dependencies]
horned-owl = "*"
actix-web = "4"
actix-files = "0.6"
sqlx = { version = "0.8", default-features = false, features = ["sqlite", "runtime-tokio"] }
tokio = { version = "1", features = ["macros", "rt-multi-thread", "fs"] }
uuid = { version = "1", features = ["v4"] }
anyhow = "1"
