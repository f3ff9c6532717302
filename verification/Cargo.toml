[package]
name = "multi_agent_chat"
version = "0.1.0"
edition = "2021"
publish = false

[dependencies]
uuid = { version = "1.6", features = ["v4", "serde"] }
chrono = { version = "0.4", features = ["serde"] }
sha2 = "0.10"
hex = "0.4"
serde = { version = "1.0", features = ["derive"] }
serde_json = "1.0"
tokio = { version = "1.35", features = ["full"] }
tokio-tungstenite = "0.21"
futures-util = "0.3"
log = "0.4"
env_logger = "0.10"
thiserror = "1.0"
anyhow = "1.0"
async-trait = "0.1"

[dev-dependencies]
rand = "0.8"
