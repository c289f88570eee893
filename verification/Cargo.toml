[package]
name = "water_telemetry"
version = "0.1.0"
edition = "2021"
publish = false

[dependencies]
axum = "0.7"
axum-server = "0.7"
chrono = "0.4"
plotly = "*"
rusqlite = "*"
serde = { version = "1", features = ["derive"] }
tokio = { version = "1", features = ["macros", "rt-multi-thread"] }
