[package]
name = "peisear_web"
version = "0.1.0"
edition = "2021"
publish = false

[dependencies]
chrono = "0.4"
serde = { version = "1", features = ["derive"] }
dotenvy = "0.15"
thiserror = "2"
axum = "0.8"

[dev-dependencies]
serde_urlencoded = "0.7"
