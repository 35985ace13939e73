[package]
name = "s3_cp"
version = "0.1.0"
edition = "2021"
publish = false

[dependencies]
csv = "=1.4.0"
percent-encoding = "=2.3.2"
chrono = "=0.4.45"
aws-config = "=1.12.0"
aws-sdk-s3 = "=1.152.0"
aws-types = "=1.6.0"
clap = { version = "=4.6.7", features = ["derive", "env"] }
env_logger = "=0.11.11"
futures = "=0.3.34"
log = "=0.4.34"
tokio = { version = "=1.54.1", features = ["macros", "rt-multi-thread"] }
