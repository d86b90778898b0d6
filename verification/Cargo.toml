[package]
name = "blvflag"
version = "0.1.0"
edition = "2021"
publish = false

[dependencies]
similar = "=2.7.0"
regex = "=1.13.1"
serde_json = "=1.0.154"
chrono = "=0.4.45"
clap = "=3.2.25"
dirs = "=5.0.1"
dirs-next = "=2.0.0"
indicatif = "=0.17.11"
ollama-rs = { version = "=0.1.9", features = ["stream"] }
reqwest = { version = "=0.12.28", features = ["json"] }
tokio = { version = "=1.54.1", features = ["full"] }
tokio-stream = "=0.1.19"
