[package]
name = "rootly_lib"
version = "0.1.0"
edition = "2021"
publish = false

[dependencies]
byteorder = "1"
serde_json = "1"
opentelemetry-proto = "*"
prost = "*"
lambda_http = "*"
lambda_runtime = "*"
aws_lambda_events = "*"
axum = "*"
tokio = { version = "1", features = ["full"] }
tokio-cron-scheduler = "*"
config = "*"
