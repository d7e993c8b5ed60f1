[package]
name = "secret_sync"
version = "0.1.0"
edition = "2021"
publish = false

[dependencies]
aws-config = "=1.13.0"
aws-sdk-secretsmanager = "=1.123.0"
base64 = "=0.22.1"
clap = { version = "=4.6.7", features = ["derive"] }
env_logger = "=0.11.11"
k8s-openapi = { version = "=0.27.1", features = ["latest"] }
kube = "=3.1.0"
log = "=0.4.34"
serde_json = "=1.0.154"
tokio = { version = "=1.54.1", features = ["macros", "rt-multi-thread"] }
