[package]
name = "newsroom"
version = "0.1.0"
edition = "2021"
publish = false

[dependencies]
argon2 = { version = "0.5", features = ["std"] }
chrono = "0.4"
axum = "0.8"
axum-cookie = "*"
sqlx = { version = "0.8", default-features = false, features = ["runtime-tokio", "postgres"] }
tokio = { version = "1", features = ["macros", "rt-multi-thread", "net"] }
tower-http = { version = "0.6", features = ["fs"] }
handlebars = "6"
serde = { version = "1", features = ["derive"] }
serde_json = "1"
futures-util = "0.3"
dotenvy = "0.15"
uuid = { version = "1", features = ["v4"] }
