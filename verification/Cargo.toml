[package]
name = "neutrino-http"
version = "0.1.0"
edition = "2021"
publish = false

[dependencies]
ruma = "*"
rand = "0.9"
serde = { version = "1", features = ["derive"] }
serde_json = { version = "1", features = ["raw_value"] }
axum = "0.8"
tokio = { version = "1", features = ["rt-multi-thread", "macros", "net", "sync", "time"] }
tokio-util = "0.7"
tower-http = { version = "0.6", features = ["trace"] }
reqwest = { version = "0.12", default-features = false, features = ["json"] }
tracing = "0.1"
thiserror = "2"
async-trait = "0.1"
