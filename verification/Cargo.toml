[package]
name = "tracing_loki"
version = "0.1.0"
edition = "2021"
publish = false

[dependencies]
prost = "0.12"
prost-types = "0.12"
reqwest = { version = "0.11", default-features = false }
serde = { version = "1", features = ["derive"] }
serde_json = "1"
snap = "1"
tokio = { version = "1", features = ["sync", "time", "rt", "macros"] }
tracing = "0.1"
tracing-core = "0.1"
tracing-log = "0.2"
tracing-serde = "0.1"
tracing-subscriber = "0.3"
url = "2"
