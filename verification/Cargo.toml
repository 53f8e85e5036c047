[package]
name = "agentic_core"
version = "0.1.0"
edition = "2021"
publish = false

[dependencies]
anyhow = "*"
async-trait = "*"
eventsource-stream = "*"
futures = "*"
futures-util = "*"
reqwest = { version = "*", default-features = false, features = ["json", "blocking"] }
serde = { version = "*", features = ["derive"] }
serde_json = "*"
tokio = { version = "*", features = ["rt", "macros"] }
tracing = "*"
