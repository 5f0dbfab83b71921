[package]
name = "agent_views"
version = "0.1.0"
edition = "2021"
publish = false

[dependencies]
anyhow = "1"
chrono = { version = "0.4", default-features = false, features = ["clock", "std"] }
uuid = "1"
serde = { version = "1", features = ["derive"] }
sqlx = { version = "0.8", default-features = false, features = ["sqlite", "runtime-tokio"] }
tokio = { version = "1", features = ["rt", "macros", "sync"] }
tracing = "0.1"
ratatui = "0.29"
crossterm = "0.28"
color-eyre = "0.6"
schemars = "0.8"
ts-rs = "10"

[dev-dependencies]
pretty_assertions = "1"
