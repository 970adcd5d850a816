[package]
name = "helloworldstate"
version = "0.1.0"
edition = "2021"
publish = false

[dependencies]
chrono = "*"
serde = { version = "*", features = ["derive"] }
serde_json = "*"
tokio = { version = "*", features = ["macros", "rt"] }
lambda_runtime = "*"
aws-config = "*"
aws-sdk-dynamodb = "*"
reqwest = { version = "*", default-features = false, features = ["json", "rustls-tls"] }
tracing = "*"
tracing-subscriber = "*"
