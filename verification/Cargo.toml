[package]
name = "homeserver"
version = "0.1.0"
edition = "2021"
publish = false

[dependencies]
anyhow = "=1.0.104"
axum = { version = "=0.8.9", features = ["ws"] }
bollard = "=0.21.1"
bytes = "=1.12.1"
chrono = "=0.4.45"
cron = "=0.17.0"
futures-util = "=0.3.34"
serde = { version = "=1.0.229", features = ["derive"] }
serde_json = "=1.0.151"
sqlx = { version = "=0.9.0", default-features = false, features = ["runtime-tokio", "sqlite", "macros"] }
sysinfo = "=0.39.6"
tokio = { version = "=1.53.2", features = ["full"] }
toml = "=1.1.7"
tower-http = { version = "=0.7.1", features = ["cors"] }
tracing = "=0.1.44"
tracing-subscriber = { version = "=0.3.23", features = ["env-filter"] }
wincode = { version = "=0.6.2", features = ["derive"] }
