[package]
name = "tulpje"
version = "0.1.0"
edition = "2021"
publish = false

[dependencies]
uuid = { version = "=1.27.0", features = ["v7"] }
async-cron-scheduler = "=2.0.1"
chrono = "=0.4.45"
tokio = { version = "*", features = ["rt-multi-thread", "macros", "time", "sync"] }
serde = { version = "*", features = ["derive"] }
serde_json = "*"
twilight-model = "*"
twilight-gateway = { version = "*", default-features = false }
twilight-http = { version = "*", default-features = false }
twilight-util = { version = "*", features = ["builder"] }
bb8 = "*"
bb8-redis = "*"
reqwest = { version = "*", default-features = false }
lapin = { version = "*", default-features = false }
tokio-executor-trait = "*"
tokio-reactor-trait = "*"
futures-util = "*"
base64 = "*"
regex = "*"
metrics-process = "*"
