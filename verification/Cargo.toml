[package]
name = "sim-core"
version = "0.1.0"
edition = "2021"
publish = false

[dependencies]
anyhow = "=1.0.104"
aws-config = { version = "=1.12.0", features = ["behavior-version-latest"] }
aws-sdk-s3 = "=1.152.0"
aws-sdk-sqs = "=1.114.0"
aws-sdk-ssm = "=1.128.0"
aws-types = "=1.6.0"
axum = { version = "=0.8.9", features = ["ws"] }
axum-extra = { version = "=0.10.3", features = ["cookie"] }
bytemuck = { version = "=1.25.2", features = ["derive"] }
chrono = "=0.4.45"
console_error_panic_hook = "=0.1.7"
rayon = "=1.12.0"
reqwest = { version = "=0.12.28", features = ["json"] }
serde = { version = "=1.0.229", features = ["derive"] }
serde_json = "=1.0.154"
tokio = { version = "=1.54.1", features = ["full"] }
wasm-bindgen = "=0.2.129"
wasm-bindgen-rayon = "=1.3.0"
