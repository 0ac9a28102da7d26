[package]
name = "econwar"
version = "0.1.0"
edition = "2021"
publish = false

[dependencies]
rust_decimal = "1"
rust_decimal_macros = "1"
uuid = { version = "1", features = ["v4", "serde"] }
chrono = { version = "0.4", features = ["serde"] }
serde = { version = "1", features = ["derive"] }
serde_json = "1"
thiserror = "1"
anyhow = "1"
tokio = { version = "1", features = ["full"] }
axum = { version = "0.7", features = ["ws"] }
sqlx = { version = "0.7", default-features = false, features = ["runtime-tokio", "postgres", "uuid", "chrono", "rust_decimal", "migrate"] }
tracing = "0.1"
tracing-subscriber = { version = "0.3", features = ["env-filter"] }
tower-http = { version = "0.5", features = ["cors", "trace"] }
dashmap = "5"
dotenvy = "0.15"
argon2 = "0.5"
jsonwebtoken = "9"
rand = "0.8"
redis = { version = "0.25", features = ["tokio-comp"] }
futures-util = "0.3"
reqwest = { version = "0.12", default-features = false, features = ["json"] }
ratatui = "0.28"
crossterm = "0.28"
