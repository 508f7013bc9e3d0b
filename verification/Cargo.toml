[package]
name = "bingo_core"
version = "0.1.0"
edition = "2021"
publish = false

[dependencies]
anyhow = "1"
chrono = "0.4"
num_cpus = "1"
serde = { version = "1", features = ["derive"] }
serde_json = "1"
sys-info = "0.9"
thiserror = "1"
tracing = "0.1"
uuid = { version = "1", features = ["v4"] }
