[package]
name = "hourly_brief"
version = "0.1.0"
edition = "2021"
publish = false

[dependencies]
chrono = "0.4"
serde_json = "1"
ureq = { version = "2", features = ["json"] }
tokio = { version = "1", features = ["macros", "rt-multi-thread", "sync"] }
aws-config = { version = "1", features = ["behavior-version-latest"] }
aws-sdk-dynamodb = "1"
aws-sdk-ssm = "1"
lambda_runtime = "*"
lambda_http = "*"
