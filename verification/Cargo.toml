[package]
name = "energiatili"
version = "0.1.0"
edition = "2021"
publish = false

[dependencies]
chrono = { version = "=0.4.45", features = ["serde"] }
chrono-tz = "=0.10.4"
dirs = "=6.0.0"
env_logger = "=0.11.11"
futures = "=0.3.34"
influxdb2 = "*"
log = "=0.4.34"
num-traits = "=0.2.19"
rayon = "=1.12.0"
reqwest = { version = "=0.12.28", features = ["cookies"] }
serde = { version = "=1.0.229", features = ["derive"] }
serde_json = "=1.0.154"
tokio = { version = "=1.54.1", features = ["macros", "rt-multi-thread"] }
toml = "=0.9.12"
