[package]
name = "ticklist"
version = "0.1.0"
edition = "2021"
publish = false

[dependencies]
uuid = { version = "=1.27.0", features = ["v7"] }
axum = "=0.7.9"
tokio = { version = "=1.53.2", features = ["rt-multi-thread", "macros"] }
sqlx = { version = "=0.7.4", features = ["runtime-tokio-rustls", "postgres", "uuid", "time"] }
anyhow = "=1.0.104"
tracing = "=0.1.44"
time = "=0.3.55"
