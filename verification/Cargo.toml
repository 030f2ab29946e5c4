[package]
name = "logcrab"
version = "0.1.0"
edition = "2021"
publish = false

[dependencies]
fancy-regex = "=0.20.0"
chrono = { version = "=0.4.45", default-features = false, features = ["std", "clock"] }
pcap-parser = "=0.17.0"
serde = { version = "=1.0.229", features = ["derive"] }
serde_json = "=1.0.154"
clap = { version = "=4.6.7", features = ["derive"] }
anyhow = "=1.0.104"
dlt-core = "=0.20.2"
keybinds = "=0.2.0"
opentelemetry-proto = { version = "*", default-features = false, features = ["gen-tonic-messages", "logs", "with-serde"] }
