[package]
name = "pfp_bridge"
version = "0.1.0"
edition = "2021"
publish = false

[dependencies]
clap = { version = "=4.6.7", features = ["derive", "env"] }
color-eyre = "=0.6.5"
eyre = "=0.6.14"
futures = "=0.3.34"
mosquitto-rs = "=0.11.2"
reqwest = { version = "=0.12.28", default-features = false }
tokio = { version = "=1.54.1", features = ["full"] }
tokio-serial = { version = "=5.5.0", default-features = false }
tracing = "=0.1.44"
tracing-subscriber = { version = "=0.3.23", features = ["env-filter"] }

[dev-dependencies]
nom = "7"
