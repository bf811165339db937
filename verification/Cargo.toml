[package]
name = "trustworthiness_checker"
version = "0.1.0"
edition = "2021"
publish = false

[dependencies]
petgraph = { version = "=0.8.3", features = ["serde-1"] }
rand = "=0.9.5"
serde = { version = "=1.0.229", features = ["derive"] }
serde_json = "=1.0.154"
serde_json5 = "=0.2.1"
clap = { version = "=4.6.7", features = ["derive"] }
anyhow = "=1.0.104"
thiserror = "=2.0.21"
smol = "=2.0.2"
futures = "=0.3.34"
uuid = { version = "=1.29.0", features = ["v4"] }
paho-mqtt = { version = "*", default-features = false }
