[package]
name = "schedule_api"
version = "0.1.0"
edition = "2021"
publish = false

[dependencies]
uuid = { version = "1", features = ["v4"] }
chrono = "0.4"
axum = "*"
tokio = { version = "1", features = ["macros", "rt-multi-thread", "net"] }
sqlx = { version = "*", default-features = false, features = ["runtime-tokio", "mysql", "chrono"] }
serde = { version = "1", features = ["derive"] }
thiserror = "*"
tower-http = { version = "*", features = ["cors"] }
dotenv = "*"
redis = { version = "*", features = ["tokio-comp"] }
async-trait = "0.1"
