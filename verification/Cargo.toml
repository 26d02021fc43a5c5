[package]
name = "greeter"
version = "0.1.0"
edition = "2021"
publish = false

[dependencies]
jiff = "=0.2.39"
anyhow = "=1.0.104"
axum = "=0.8.9"
bytes = "=1.12.1"
http-body = "=1.1.0"
metrics = "=0.24.6"
metrics-exporter-prometheus = "=0.18.3"
metrics-process = "=2.4.3"
pin-project-lite = "=0.2.17"
prost = "=0.13.5"
prost-types = "=0.13.5"
tokio = { version = "=1.54.1", features = ["full"] }
tonic = "=0.13.1"
tonic-middleware = "=0.3.0"
tonic-reflection = "=0.13.1"
tower-http = { version = "=0.6.11", features = ["catch-panic"] }
tracing = "=0.1.44"
tracing-subscriber = { version = "=0.3.23", features = ["env-filter", "json"] }
