[package]
name = "cookie_actor"
version = "0.1.0"
edition = "2021"
publish = false

[dependencies]
chrono = "0.4"
colored = "3"
moka = { version = "0.12", features = ["sync"] }
ractor = "0.15"
serde = { version = "1", features = ["derive"] }
snafu = "0.8"
tokio = { version = "1", features = ["full"] }
tracing = "0.1"
