[package]
name = "wasi_otel"
version = "0.1.0"
edition = "2021"
publish = false

[dependencies]
base64 = "=0.23.1"
serde_json = "=1.0.151"
opentelemetry = "=0.33.0"
opentelemetry_sdk = { version = "=0.33.0", features = ["experimental_metrics_custom_reader"] }
