[package]
name = "spark-dashboard"
version = "0.1.0"
edition = "2021"
publish = false

[dependencies]
async-trait = "0.1"
axum = { version = "0.8", features = ["ws"] }
bollard = "0.19"
clap = { version = "4", features = ["derive", "env"] }
futures-util = "0.3"
mime_guess = "2"
prometheus-parse = "0.2"
reqwest = { version = "0.12", default-features = false, features = ["json", "rustls-tls"] }
rust-embed = "8"
serde = { version = "1", features = ["derive"] }
serde_json = "1"
sysinfo = "0.35"
tokio = { version = "1", features = ["full"] }
tower-http = { version = "0.6", features = ["cors"] }
tracing = "0.1"
tracing-subscriber = { version = "0.3", features = ["env-filter"] }
