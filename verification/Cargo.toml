[package]
name = "blog_core"
version = "0.1.0"
edition = "2021"
publish = false

[dependencies]
pulldown-cmark = "0.9"
rand = "0.8"
actix-web = "4"
actix-files = "0.6"
sea-orm = { version = "1", features = ["sqlx-sqlite", "runtime-tokio-rustls"] }
serde = { version = "1", features = ["derive"] }
serde_json = "1"
dotenv = "0.15"
lazy_static = "1"
