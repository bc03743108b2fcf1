[package]
name = "claw"
version = "0.1.0"
edition = "2021"
publish = false

[dependencies]
anyhow = "=1.0.104"
async-openai = { version = "=0.43.0", features = ["chat-completion"] }
async-trait = "=0.1.92"
chrono = { version = "=0.4.45", features = ["serde"] }
futures = "=0.3.34"
getrandom = "=0.4.3"
glob = "=0.3.4"
regex = "=1.13.1"
serde = { version = "=1.0.229", features = ["derive"] }
serde_json = "=1.0.154"
thiserror = "=2.0.21"
tokio = { version = "=1.54.1", features = ["rt-multi-thread", "macros", "sync", "fs", "time"] }
tokio-stream = "=0.1.19"
tracing = "=0.1.44"
uuid = { version = "=1.29.0", features = ["v4"] }
