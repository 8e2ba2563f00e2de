[package]
name = "dianliao_cloud"
version = "0.1.0"
edition = "2021"
publish = false

[dependencies]
quick-xml = "=0.22.0"
ureq = { version = "=2.12.1", default-features = false }
simple-error = "=0.2.3"
serde = { version = "=1.0.229", features = ["derive"] }
log = "=0.4.34"
flexi_logger = "=0.31.10"
lambda_runtime = "=0.4.1"
tokio = { version = "=1.54.1", features = ["macros", "rt-multi-thread"] }
rusoto_core = { version = "=0.47.0", default-features = false, features = ["rustls"] }
rusoto_dynamodb = { version = "=0.47.0", default-features = false, features = ["rustls"] }
serde_dynamodb = "=0.9.0"
