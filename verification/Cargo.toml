[package]
name = "aerospike_rust_workshop"
version = "0.1.0"
edition = "2021"
publish = false

[dependencies]
aerospike = { version = "2.1", features = ["rt-tokio"] }
async-trait = "0.1"
axum = "0.8"
futures = "0.3"
serde = { version = "1", features = ["derive"] }
serde_json = "1"
tokio = { version = "1", features = ["full"] }
tower-http = { version = "0.6", features = ["cors", "fs"] }
tracing = "0.1"
tracing-subscriber = { version = "0.3", features = ["env-filter"] }
