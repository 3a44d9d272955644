[package]
name = "vodsegmenter"
version = "0.1.0"
edition = "2021"
publish = false

[dependencies]
aws-config = "*"
aws_lambda_events = "*"
aws-sdk-dynamodb = "*"
aws-sdk-s3 = "*"
aws-sdk-sfn = "*"
chrono = "*"
lambda_runtime = "*"
serde = { version = "*", features = ["derive"] }
serde_json = "*"
tokio = { version = "*", features = ["macros", "rt"] }
urlparse = "*"
uuid = { version = "*", features = ["v4"] }
