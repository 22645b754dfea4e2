[package]
name = "sqs_dispatch"
version = "0.1.0"
edition = "2021"
publish = false

[dependencies]
aws-config = "=1.13.0"
aws-sdk-sqs = "=1.117.0"
aws-smithy-runtime-api = { version = "=1.19.1", features = ["client"] }
axum-server = "0.7"
clap = { version = "=4.6.7", features = ["derive"] }
tokio = { version = "=1.54.1", features = ["full"] }
