[package]
name = "vessel_reports"
version = "0.1.0"
edition = "2021"
publish = false

[dependencies]
async_zip = { version = "*", features = ["tokio", "deflate"] }
aws-config = "1"
aws-sdk-dynamodb = "1"
aws-sdk-s3 = "1"
aws-smithy-runtime-api = "1"
aws-smithy-types = "1"
aws_lambda_events = { version = "*", default-features = false, features = ["s3", "sns"] }
chrono = { version = "0.4", default-features = false, features = ["std"] }
lambda_runtime = "*"
log = "0.4"
serde = { version = "1", features = ["derive"] }
serde_dynamo = { version = "4", features = ["aws-sdk-dynamodb+1"] }
serde_json = "1"
thiserror = "*"
tokio = { version = "1", features = ["macros", "rt"] }
urlencoding = "2"
uuid = { version = "1", features = ["serde"] }
wrzasqpl-commons-aws = "*"

[dev-dependencies]
lazy-regex = "*"
