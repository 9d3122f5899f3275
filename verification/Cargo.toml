[package]
name = "delete_ecs_clusters_rs"
version = "0.1.0"
edition = "2021"
publish = false

[dependencies]
anyhow = "1"
aws-config = { version = "1", features = ["behavior-version-latest"] }
aws-sdk-ecs = "1"
clap = { version = "4", features = ["derive"] }
dotenvy = "0.15"
env_logger = "0.11"
futures = "0.3"
log = "0.4"
tokio = { version = "1", features = ["macros", "rt-multi-thread"] }
