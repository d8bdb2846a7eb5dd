[package]
name = "ddb-local"
version = "0.1.0"
edition = "2021"
publish = false

[dependencies]
async-trait = "0.1"
aws-config = "1"
aws-sdk-dynamodb = { version = "1", features = ["test-util"] }
aws-smithy-runtime-api = { version = "1", features = ["client", "http-02x"] }
aws-smithy-types = { version = "1", features = ["http-body-0-4-x"] }
clap = { version = "4", features = ["derive"] }
http = "0.2"
hyper = { version = "0.14", features = ["server", "http1", "http2", "tcp"] }
tokio = { version = "1", features = ["full"] }
tower = { version = "0.4", features = ["util"] }
tracing = "0.1"
tracing-subscriber = { version = "0.3", features = ["env-filter"] }
