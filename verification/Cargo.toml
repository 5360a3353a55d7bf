[package]
name = "tracker"
version = "0.1.0"
edition = "2021"
publish = false

[dependencies]
ksuid = "=0.2.0"
scraper = "=0.29.0"
reqwest = "=0.13.5"
serde = "=1.0.229"
sqlx = { version = "=0.9.0", default-features = false, features = ["mysql", "runtime-tokio"] }
tokio = { version = "=1.54.1", features = ["macros", "rt-multi-thread"] }
lambda_runtime = "=1.5.0"
aws_lambda_events = { version = "=1.2.1", default-features = false, features = ["apigw"] }
http = "=1.5.0"
once_cell = "=1.21.4"
