[package]
name = "ip-blocker"
version = "0.1.0"
edition = "2021"
publish = false

[dependencies]
serde_json = "=1.0.154"
serde = { version = "=1.0.229", features = ["derive"] }
anyhow = "=1.0.104"
aya = "=0.11.0"
aya-log = "=0.1.13"
clap = { version = "=4.6.7", features = ["derive"] }
env_logger = "=0.10.2"
futures = "=0.3.34"
log = "=0.4.35"
notify = "=5.2.0"
tokio = { version = "=1.54.1", features = ["macros", "rt-multi-thread", "signal"] }

[dev-dependencies]
network-types = "=0.0.8"
