[package]
name = "request_analytics"
version = "0.1.0"
edition = "2021"
publish = false

[dependencies]
axum = "0.6"
hyper = "0.14"
opentelemetry = "0.18"
tracing = "0.1"

[dev-dependencies]
serde_json = "1"
