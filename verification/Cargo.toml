[package]
name = "consumption_gateway"
version = "0.1.0"
edition = "2021"
publish = false

[dependencies]
anyhow = "*"
argon2 = "*"
axum = "*"
chrono = "*"
rand = "*"
redis = { version = "*", features = ["tokio-comp", "connection-manager"] }
reqwest = { version = "*", default-features = false, features = ["json"] }
serde = { version = "*", features = ["derive"] }
serde_json = "*"
sqlx = { version = "*", default-features = false, features = ["runtime-tokio", "postgres", "uuid", "chrono", "json"] }
tokio = { version = "*", features = ["rt-multi-thread", "macros", "sync", "time"] }
uuid = { version = "*", features = ["v4"] }
